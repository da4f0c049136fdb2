//! Data types for parsed gitattributes contents, together with their
//! mathematical models.
use vstd::prelude::*;

verus! {

/// The effective state of one attribute on one line: `name` sets it,
/// `-name` unsets it, `!name` forces it back to unspecified, and
/// `name=value` attaches a value.
#[derive(Debug, Clone)]
pub enum AttrState {
    Unspecified,
    SetAttr,
    UnsetAttr,
    Value(Vec<u8>),
}

/// Model of [`AttrState`], over byte sequences.
pub enum StateModel {
    Unspecified,
    SetAttr,
    UnsetAttr,
    Value(Seq<u8>),
}

impl View for AttrState {
    type V = StateModel;

    open spec fn view(&self) -> StateModel {
        match self {
            AttrState::Unspecified => StateModel::Unspecified,
            AttrState::SetAttr => StateModel::SetAttr,
            AttrState::UnsetAttr => StateModel::UnsetAttr,
            AttrState::Value(v) => StateModel::Value(v@),
        }
    }
}

/// One attribute assignment on a gitattributes line.
#[derive(Debug, Clone)]
pub struct Assignment {
    /// The attribute's name, without any `-` or `!` prefix.
    pub name: Vec<u8>,
    /// The state the line gives the attribute.
    pub state: AttrState,
}

/// Model of [`Assignment`].
pub struct AssignmentModel {
    pub name: Seq<u8>,
    pub state: StateModel,
}

impl View for Assignment {
    type V = AssignmentModel;

    open spec fn view(&self) -> AssignmentModel {
        AssignmentModel { name: self.name@, state: self.state@ }
    }
}

/// One parsed gitattributes line: a glob and the assignments attached to it.
#[derive(Debug, Clone)]
pub struct Pattern {
    /// The glob text, after unquoting and after stripping a leading `/` and a
    /// trailing `/`.
    pub text: Vec<u8>,
    /// True iff the source pattern began with `/` or contained a non-terminal
    /// `/`; such a glob is matched against the whole candidate path relative
    /// to the layer's prefix, not against the basename alone.
    pub anchored: bool,
    /// True iff the source pattern ended in `/`; such a glob matches
    /// directory candidates only.
    pub dir_only: bool,
    /// The assignments of the line, in file order.
    pub assignments: Vec<Assignment>,
}

/// Model of [`Pattern`].
pub struct PatternModel {
    pub text: Seq<u8>,
    pub anchored: bool,
    pub dir_only: bool,
    pub assignments: Seq<AssignmentModel>,
}

impl View for Pattern {
    type V = PatternModel;

    open spec fn view(&self) -> PatternModel {
        PatternModel {
            text: self.text@,
            anchored: self.anchored,
            dir_only: self.dir_only,
            assignments: self.assignments@.map_values(|a: Assignment| a@),
        }
    }
}

/// The patterns of one gitattributes file, scoped to the directory it came
/// from.
#[derive(Debug, Clone)]
pub struct PatternList {
    /// Workspace-relative directory of the file, slash-separated, with no
    /// leading or trailing slash; empty for the workspace root and for global
    /// sources.
    pub source_prefix: Vec<u8>,
    /// The file's patterns, in file order.
    pub patterns: Vec<Pattern>,
}

/// Model of [`PatternList`].
pub struct LayerModel {
    pub prefix: Seq<u8>,
    pub patterns: Seq<PatternModel>,
}

impl View for PatternList {
    type V = LayerModel;

    open spec fn view(&self) -> LayerModel {
        LayerModel {
            prefix: self.source_prefix@,
            patterns: self.patterns@.map_values(|p: Pattern| p@),
        }
    }
}

/// Copies an attribute state.
pub fn clone_state(s: &AttrState) -> (r: AttrState)
    ensures
        r@ == s@,
{
    match s {
        AttrState::Unspecified => AttrState::Unspecified,
        AttrState::SetAttr => AttrState::SetAttr,
        AttrState::UnsetAttr => AttrState::UnsetAttr,
        AttrState::Value(v) => AttrState::Value(crate::scan::copy_bytes(v.as_slice())),
    }
}

/// Copies an assignment.
pub fn clone_assignment(a: &Assignment) -> (r: Assignment)
    ensures
        r@ == a@,
{
    Assignment { name: crate::scan::copy_bytes(a.name.as_slice()), state: clone_state(&a.state) }
}

/// Copies a pattern.
pub fn clone_pattern(p: &Pattern) -> (r: Pattern)
    ensures
        r@ == p@,
{
    let mut assignments: Vec<Assignment> = Vec::new();
    let mut i: usize = 0;
    while i < p.assignments.len()
        invariant
            i <= p.assignments@.len(),
            assignments@.len() == i,
            forall|j: int| 0 <= j < i ==> assignments@[j]@ == p.assignments@[j]@,
        decreases p.assignments@.len() - i,
    {
        assignments.push(clone_assignment(&p.assignments[i]));
        i += 1;
    }
    let r = Pattern {
        text: crate::scan::copy_bytes(p.text.as_slice()),
        anchored: p.anchored,
        dir_only: p.dir_only,
        assignments,
    };
    assert(r@.assignments =~= p@.assignments);
    r
}

/// Copies a pattern list.
pub fn clone_pattern_list(l: &PatternList) -> (r: PatternList)
    ensures
        r@ == l@,
{
    let mut patterns: Vec<Pattern> = Vec::new();
    let mut i: usize = 0;
    while i < l.patterns.len()
        invariant
            i <= l.patterns@.len(),
            patterns@.len() == i,
            forall|j: int| 0 <= j < i ==> patterns@[j]@ == l.patterns@[j]@,
        decreases l.patterns@.len() - i,
    {
        patterns.push(clone_pattern(&l.patterns[i]));
        i += 1;
    }
    let r = PatternList {
        source_prefix: crate::scan::copy_bytes(l.source_prefix.as_slice()),
        patterns,
    };
    assert(r@.patterns =~= l@.patterns);
    r
}

} // verus!
