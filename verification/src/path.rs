//! Paths into a value, and into the event or its metadata.
use crate::text;
use vstd::prelude::*;

verus! {

/// One step of a path: into a field of an object, or to an item of an array. A negative index
/// counts from the end of the array.
pub enum Step {
    Field(Seq<char>),
    Index(int),
}

/// What a path into the event or the metadata says.
#[verifier::ext_equal]
pub struct TargetPath {
    pub prefix: PathPrefix,
    pub path: Seq<Step>,
}

/// Whether every path that `path` stands for lies at or below `start`.
pub open spec fn starts_with(path: Seq<Step>, start: Seq<Step>) -> bool {
    start.len() <= path.len() && path.take(start.len() as int) == start
}

/// The event, or its metadata.
#[derive(Clone, Copy, PartialEq, Eq, Debug, Structural)]
pub enum PathPrefix {
    Event,
    Metadata,
}

/// One step of a path.
#[derive(Debug)]
pub enum OwnedSegment {
    Field(String),
    Index(isize),
}

impl View for OwnedSegment {
    type V = Step;

    open spec fn view(&self) -> Step {
        match self {
            OwnedSegment::Field(name) => Step::Field(name@),
            OwnedSegment::Index(index) => Step::Index(*index as int),
        }
    }
}

impl Clone for OwnedSegment {
    fn clone(&self) -> (r: Self)
        ensures
            r@ == self@,
    {
        match self {
            OwnedSegment::Field(name) => OwnedSegment::Field(name.clone()),
            OwnedSegment::Index(index) => OwnedSegment::Index(*index),
        }
    }
}

impl vstd::std_specs::cmp::PartialEqSpecImpl for OwnedSegment {
    open spec fn obeys_eq_spec() -> bool {
        true
    }

    open spec fn eq_spec(&self, other: &Self) -> bool {
        self@ == other@
    }
}

impl PartialEq for OwnedSegment {
    fn eq(&self, other: &Self) -> (r: bool) {
        match (self, other) {
            (OwnedSegment::Field(a), OwnedSegment::Field(b)) => *a == *b,
            (OwnedSegment::Index(a), OwnedSegment::Index(b)) => *a == *b,
            _ => false,
        }
    }
}

impl OwnedSegment {
    /// Whether the step is to an item of an array.
    pub fn is_index(&self) -> (r: bool)
        ensures
            r == (self@ is Index),
    {
        match self {
            OwnedSegment::Index(_) => true,
            OwnedSegment::Field(_) => false,
        }
    }
}

/// A path into a value. The path without a step is the root: the value itself.
#[derive(Debug)]
pub struct OwnedValuePath {
    pub segments: Vec<OwnedSegment>,
}

impl View for OwnedValuePath {
    type V = Seq<Step>;

    open spec fn view(&self) -> Seq<Step> {
        Seq::new(self.segments@.len(), |i: int| self.segments@[i]@)
    }
}

impl Clone for OwnedValuePath {
    fn clone(&self) -> (r: Self)
        ensures
            r@ == self@,
    {
        let mut segments: Vec<OwnedSegment> = Vec::new();
        let mut i: usize = 0;
        while i < self.segments.len()
            invariant
                i <= self.segments@.len(),
                segments@.len() == i,
                forall|j: int| 0 <= j < i ==> #[trigger] segments@[j]@ == self.segments@[j]@,
            decreases self.segments@.len() - i,
        {
            segments.push(self.segments[i].clone());
            i += 1;
        }
        let r = OwnedValuePath { segments };
        assert(r@ =~= self@);
        r
    }
}

impl vstd::std_specs::cmp::PartialEqSpecImpl for OwnedValuePath {
    open spec fn obeys_eq_spec() -> bool {
        true
    }

    open spec fn eq_spec(&self, other: &Self) -> bool {
        self@ == other@
    }
}

impl PartialEq for OwnedValuePath {
    fn eq(&self, other: &Self) -> (r: bool) {
        let r = self.segments.len() == other.segments.len() && self.can_start_with(other);
        proof {
            if r {
                assert(self@.take(other@.len() as int) =~= self@);
            } else if self@ == other@ {
                assert(self@.take(other@.len() as int) =~= other@);
            }
        }
        r
    }
}

/// What a path says follows from how it is held.
pub proof fn a_path_is_its_segments(
    name: String,
    index: isize,
    path: OwnedValuePath,
    target: OwnedTargetPath,
)
    ensures
        OwnedSegment::Field(name)@ == Step::Field(name@),
        OwnedSegment::Index(index)@ == Step::Index(index as int),
        path@.len() == path.segments@.len(),
        forall|i: int| 0 <= i < path@.len() ==> #[trigger] path@[i] == path.segments@[i]@,
        target@.prefix == target.prefix,
        target@.path == target.path@,
{
}

/// A path begins with another one if and only if it is that one with more steps behind it.
pub proof fn a_path_begins_with_its_first_steps(path: Seq<Step>, start: Seq<Step>, more: Seq<Step>)
    ensures
        starts_with(start + more, start),
        starts_with(path, start) ==> path == start + path.skip(start.len() as int),
{
    assert((start + more).take(start.len() as int) =~= start);
    if starts_with(path, start) {
        assert(path =~= path.take(start.len() as int) + path.skip(start.len() as int));
    }
}

/// The same of paths into the event or its metadata: both have to lead into the same one.
pub proof fn a_target_path_begins_with_its_first_steps(
    path: TargetPath,
    start: TargetPath,
    prefix: PathPrefix,
    more: Seq<Step>,
)
    ensures
        start.prefix == prefix <==> (TargetPath { prefix, path: start.path + more }).starts_with(
            start,
        ),
        path.starts_with(start) ==> {
            &&& path.prefix == start.prefix
            &&& path.path == start.path + path.path.skip(start.path.len() as int)
        },
{
    a_path_begins_with_its_first_steps(path.path, start.path, more);
}

/// How one step is written: a field behind a dot unless it comes first, an index in brackets.
pub open spec fn step_text(step: Step, first: bool) -> Seq<char> {
    match step {
        Step::Field(name) => if first {
            text::quoted(name)
        } else {
            seq!['.'] + text::quoted(name)
        },
        Step::Index(index) => seq!['['] + text::decimal(index) + seq![']'],
    }
}

/// How a path is written.
pub open spec fn path_text(path: Seq<Step>) -> Seq<char>
    decreases path.len(),
{
    if path.len() == 0 {
        Seq::empty()
    } else {
        path_text(path.drop_last()) + step_text(path.last(), path.len() == 1)
    }
}

/// A path is written step by step: a field behind a dot unless it comes first, an index in brackets.
pub proof fn a_path_is_written_step_by_step(path: Seq<Step>, name: Seq<char>, index: int)
    ensures
        path_text(Seq::empty()) == Seq::<char>::empty(),
        path.len() == 0 ==> path_text(path.push(Step::Field(name))) == text::quoted(name),
        path.len() > 0 ==> path_text(path.push(Step::Field(name))) == path_text(path) + seq!['.']
            + text::quoted(name),
        path_text(path.push(Step::Index(index))) == path_text(path) + seq!['['] + text::decimal(
            index,
        ) + seq![']'],
{
    let field = path.push(Step::Field(name));
    let item = path.push(Step::Index(index));
    assert(field.drop_last() =~= path);
    assert(item.drop_last() =~= path);
    assert(path_text(field) =~= path_text(path) + step_text(Step::Field(name), path.len() == 0));
    assert(path_text(item) =~= path_text(path) + seq!['['] + text::decimal(index) + seq![']']);
    if path.len() == 0 {
        assert(path_text(field) =~= text::quoted(name));
    } else {
        assert(path_text(field) =~= path_text(path) + seq!['.'] + text::quoted(name));
    }
}

/// A path is shown step by step, with a comma between them, and with what they are.
pub proof fn a_path_is_shown_step_by_step(path: Seq<Step>, name: Seq<char>, index: int)
    ensures
        path_debug_text(path) == "OwnedValuePath { segments: ["@ + steps_debug_text(path)
            + "] }"@,
        steps_debug_text(Seq::empty()) == Seq::<char>::empty(),
        path.len() == 0 ==> {
            &&& steps_debug_text(path.push(Step::Field(name))) == "Field("@ + text::debug_text(name)
                + ")"@
            &&& steps_debug_text(path.push(Step::Index(index))) == "Index("@ + text::decimal(index)
                + ")"@
        },
        path.len() > 0 ==> {
            &&& steps_debug_text(path.push(Step::Field(name))) == steps_debug_text(path) + ", "@ + (
            "Field("@ + text::debug_text(name) + ")"@)
            &&& steps_debug_text(path.push(Step::Index(index))) == steps_debug_text(path) + ", "@
                + ("Index("@ + text::decimal(index) + ")"@)
        },
{
    assert(path.push(Step::Field(name)).drop_last() =~= path);
    assert(path.push(Step::Index(index)).drop_last() =~= path);
}

/// How one step is shown to those who look for a mistake.
pub open spec fn step_debug_text(step: Step) -> Seq<char> {
    match step {
        Step::Field(name) => "Field("@ + text::debug_text(name) + ")"@,
        Step::Index(index) => "Index("@ + text::decimal(index) + ")"@,
    }
}

/// How steps are shown, with a comma between them.
pub open spec fn steps_debug_text(path: Seq<Step>) -> Seq<char>
    decreases path.len(),
{
    if path.len() == 0 {
        Seq::empty()
    } else if path.len() == 1 {
        step_debug_text(path[0])
    } else {
        steps_debug_text(path.drop_last()) + ", "@ + step_debug_text(path.last())
    }
}

/// How a path is shown to those who look for a mistake.
pub open spec fn path_debug_text(path: Seq<Step>) -> Seq<char> {
    "OwnedValuePath { segments: ["@ + steps_debug_text(path) + "] }"@
}

impl OwnedValuePath {
    /// How the path is shown to those who look for a mistake.
    pub fn to_debug_text(&self) -> (r: String)
        ensures
            r@ == path_debug_text(self@),
    {
        let ghost start = "OwnedValuePath { segments: ["@;
        let mut r = "OwnedValuePath { segments: [".to_string();
        let mut i: usize = 0;
        assert(self@.take(0) =~= Seq::<Step>::empty());
        assert(r@ =~= start + steps_debug_text(self@.take(0)));
        while i < self.segments.len()
            invariant
                i <= self.segments@.len(),
                r@ == start + steps_debug_text(self@.take(i as int)),
            decreases self.segments@.len() - i,
        {
            let ghost before = r@;
            if i != 0 {
                r.append(", ");
            }
            match &self.segments[i] {
                OwnedSegment::Field(name) => {
                    r.append("Field(");
                    text::push_debug(&mut r, name.as_str());
                },
                OwnedSegment::Index(index) => {
                    r.append("Index(");
                    text::push_decimal(&mut r, *index as i64);
                },
            }
            r.append(")");
            proof {
                let steps = self@.take(i + 1);
                assert(steps.drop_last() =~= self@.take(i as int));
                assert(steps.last() == self@[i as int]);
                if i == 0 {
                    assert(before =~= start);
                    assert(r@ =~= start + step_debug_text(steps[0]));
                } else {
                    assert(r@ =~= before + ", "@ + step_debug_text(steps.last()));
                    assert(r@ =~= start + steps_debug_text(steps));
                }
            }
            i += 1;
        }
        assert(self@.take(i as int) =~= self@);
        r.append("] }");
        r
    }

    /// The path to the value itself.
    pub fn root() -> (r: Self)
        ensures
            r@ == Seq::<Step>::empty(),
    {
        let r = OwnedValuePath { segments: Vec::new() };
        assert(r@ =~= Seq::<Step>::empty());
        r
    }

    /// Whether this is the path to the value itself.
    pub fn is_root(&self) -> (r: bool)
        ensures
            r == (self@.len() == 0),
    {
        self.segments.len() == 0
    }

    /// Whether this path begins with the steps of `prefix`.
    pub fn can_start_with(&self, prefix: &Self) -> (r: bool)
        ensures
            r == starts_with(self@, prefix@),
    {
        if prefix.segments.len() > self.segments.len() {
            return false;
        }
        let mut i: usize = 0;
        while i < prefix.segments.len()
            invariant
                i <= prefix.segments@.len() <= self.segments@.len(),
                forall|j: int|
                    0 <= j < i ==> #[trigger] self.segments@[j]@ == prefix.segments@[j]@,
            decreases prefix.segments@.len() - i,
        {
            if self.segments[i] != prefix.segments[i] {
                assert(self@.take(prefix@.len() as int)[i as int] != prefix@[i as int]);
                return false;
            }
            i += 1;
        }
        assert(self@.take(prefix@.len() as int) =~= prefix@);
        true
    }

    /// How the path is written.
    pub fn to_text(&self) -> (r: String)
        ensures
            r@ == path_text(self@),
    {
        let mut r = String::new();
        let mut i: usize = 0;
        assert(self@.take(0) =~= Seq::<Step>::empty());
        while i < self.segments.len()
            invariant
                i <= self.segments@.len(),
                r@ == path_text(self@.take(i as int)),
            decreases self.segments@.len() - i,
        {
            let ghost before = r@;
            match &self.segments[i] {
                OwnedSegment::Field(name) => {
                    if i != 0 {
                        r.push('.');
                    }
                    text::push_quoted(&mut r, name.as_str());
                },
                OwnedSegment::Index(index) => {
                    r.push('[');
                    text::push_decimal(&mut r, *index as i64);
                    r.push(']');
                },
            }
            proof {
                assert(r@ =~= before + step_text(self@[i as int], i == 0));
                assert(self@.take(i + 1).drop_last() =~= self@.take(i as int));
                assert(self@.take(i + 1).last() == self@[i as int]);
            }
            i += 1;
        }
        assert(self@.take(i as int) =~= self@);
        r
    }
}

/// A path into the event or its metadata.
#[derive(Debug)]
pub struct OwnedTargetPath {
    pub prefix: PathPrefix,
    pub path: OwnedValuePath,
}

impl View for OwnedTargetPath {
    type V = TargetPath;

    open spec fn view(&self) -> TargetPath {
        TargetPath { prefix: self.prefix, path: self.path@ }
    }
}

impl Clone for OwnedTargetPath {
    fn clone(&self) -> (r: Self)
        ensures
            r@ == self@,
    {
        OwnedTargetPath { prefix: self.prefix, path: self.path.clone() }
    }
}

impl vstd::std_specs::cmp::PartialEqSpecImpl for OwnedTargetPath {
    open spec fn obeys_eq_spec() -> bool {
        true
    }

    open spec fn eq_spec(&self, other: &Self) -> bool {
        self@ == other@
    }
}

impl PartialEq for OwnedTargetPath {
    fn eq(&self, other: &Self) -> (r: bool) {
        self.prefix == other.prefix && self.path == other.path
    }
}

impl TargetPath {
    /// Whether this path lies at or below `start`.
    pub open spec fn starts_with(self, start: TargetPath) -> bool {
        self.prefix == start.prefix && starts_with(self.path, start.path)
    }
}

impl OwnedTargetPath {
    /// The path to the whole event.
    pub fn event_root() -> (r: Self)
        ensures
            r@ == (TargetPath { prefix: PathPrefix::Event, path: Seq::<Step>::empty() }),
    {
        OwnedTargetPath { prefix: PathPrefix::Event, path: OwnedValuePath::root() }
    }

    /// The path to the whole metadata.
    pub fn metadata_root() -> (r: Self)
        ensures
            r@ == (TargetPath { prefix: PathPrefix::Metadata, path: Seq::<Step>::empty() }),
    {
        OwnedTargetPath { prefix: PathPrefix::Metadata, path: OwnedValuePath::root() }
    }

    /// Whether this path has the prefix of `prefix` and begins with its steps.
    pub fn can_start_with(&self, prefix: &Self) -> (r: bool)
        ensures
            r == self@.starts_with(prefix@),
    {
        self.prefix == prefix.prefix && self.path.can_start_with(&prefix.path)
    }
}

} // verus!
