//! Attribute resolution over a stack of pattern lists.
//!
//! Layers are scanned in reverse load order and, within a layer, lines in
//! reverse file order; the first decision found is therefore the last
//! applicable assignment in overall load order — git's "last wins" rule.
//! A layer with a non-empty source prefix applies only to candidates at or
//! under that prefix, and its globs see the candidate relative to it.
use vstd::prelude::*;

use crate::glob::glob_matches;
use crate::glob::pattern_matches_candidate;
use crate::model::Assignment;
use crate::model::AssignmentModel;
use crate::model::AttrState;
use crate::model::LayerModel;
use crate::model::PatternList;
use crate::model::PatternModel;
use crate::model::StateModel;
use crate::model::clone_state;
use crate::model::clone_pattern_list;
use crate::parse::parse_file_spec;

verus! {

/// A candidate path lies in a layer's scope: always, for a layer without a
/// prefix; under prefix `Q`, when the path is `Q` itself as a directory, or
/// begins with `Q/`.
pub open spec fn in_scope(prefix: Seq<u8>, path: Seq<u8>, is_dir: bool) -> bool {
    ||| prefix.len() == 0
    ||| (path == prefix && is_dir)
    ||| (path.len() > prefix.len() && path.subrange(0, prefix.len() as int) == prefix && path[
        prefix.len() as int
    ] == 47)
}

/// The candidate a layer's globs are matched against: the path itself for a
/// layer without a prefix, else the path with `Q/` stripped (empty when the
/// path is `Q` itself).
pub open spec fn rel_candidate(prefix: Seq<u8>, path: Seq<u8>) -> Seq<u8> {
    if prefix.len() == 0 {
        path
    } else if path == prefix {
        Seq::empty()
    } else {
        path.subrange(prefix.len() as int + 1, path.len() as int)
    }
}

/// The first state a line's assignments give `attr`, in file order.
pub open spec fn first_state_for(asgns: Seq<AssignmentModel>, attr: Seq<u8>) -> Option<StateModel>
    decreases asgns.len(),
{
    if asgns.len() == 0 {
        None
    } else if asgns[0].name == attr {
        Some(asgns[0].state)
    } else {
        first_state_for(asgns.drop_first(), attr)
    }
}

/// Whether one pattern of a layer at `prefix` decides `attr` for the
/// candidate: the candidate is in scope, the glob matches it, and the line
/// assigns `attr`.
pub open spec fn pattern_decides(
    p: PatternModel,
    prefix: Seq<u8>,
    path: Seq<u8>,
    is_dir: bool,
    attr: Seq<u8>,
) -> bool {
    &&& in_scope(prefix, path, is_dir)
    &&& glob_matches(p, rel_candidate(prefix, path), is_dir)
    &&& first_state_for(p.assignments, attr) is Some
}

/// The decision of one layer: the first assignment of `attr` among its
/// deciding lines, scanned from the last line up.
pub open spec fn resolve_patterns(
    ps: Seq<PatternModel>,
    prefix: Seq<u8>,
    path: Seq<u8>,
    is_dir: bool,
    attr: Seq<u8>,
) -> Option<StateModel>
    decreases ps.len(),
{
    if ps.len() == 0 {
        None
    } else if pattern_decides(ps.last(), prefix, path, is_dir, attr) {
        first_state_for(ps.last().assignments, attr)
    } else {
        resolve_patterns(ps.drop_last(), prefix, path, is_dir, attr)
    }
}

/// The decision of a stack: the decision of the last layer that has one.
pub open spec fn resolve_layers(
    layers: Seq<LayerModel>,
    path: Seq<u8>,
    is_dir: bool,
    attr: Seq<u8>,
) -> Option<StateModel>
    decreases layers.len(),
{
    if layers.len() == 0 {
        None
    } else {
        match resolve_patterns(
            layers.last().patterns,
            layers.last().prefix,
            path,
            is_dir,
            attr,
        ) {
            Some(s) => Some(s),
            None => resolve_layers(layers.drop_last(), path, is_dir, attr),
        }
    }
}

/// A trailing `/` marks the candidate a directory and is stripped.
pub open spec fn normalize_candidate(path: Seq<u8>, is_dir: bool) -> (Seq<u8>, bool) {
    if path.len() > 0 && path.last() == 47 {
        (path.drop_last(), true)
    } else {
        (path, is_dir)
    }
}

/// The effective state of `attr` for a candidate path under a stack of
/// layers: `Unspecified` where no line decides.
pub open spec fn resolve_spec(
    layers: Seq<LayerModel>,
    path: Seq<u8>,
    is_dir: bool,
    attr: Seq<u8>,
) -> StateModel {
    let (p, d) = normalize_candidate(path, is_dir);
    match resolve_layers(layers, p, d, attr) {
        Some(s) => s,
        None => StateModel::Unspecified,
    }
}

/// A layer never decides for a candidate outside its scope.
pub proof fn lemma_out_of_scope_resolves_none(
    ps: Seq<PatternModel>,
    prefix: Seq<u8>,
    path: Seq<u8>,
    is_dir: bool,
    attr: Seq<u8>,
)
    requires
        !in_scope(prefix, path, is_dir),
    ensures
        resolve_patterns(ps, prefix, path, is_dir, attr) is None,
    decreases ps.len(),
{
    if ps.len() > 0 {
        lemma_out_of_scope_resolves_none(ps.drop_last(), prefix, path, is_dir, attr);
    }
}

/// Law — scope containment: whenever a layer with a non-empty prefix `Q`
/// decides an attribute for a candidate, the candidate is `Q` itself as a
/// directory, or begins with `Q/`. A pattern loaded at `Q` can never reach a
/// path outside `Q`.
pub proof fn lemma_scope_containment(
    ps: Seq<PatternModel>,
    prefix: Seq<u8>,
    path: Seq<u8>,
    is_dir: bool,
    attr: Seq<u8>,
)
    requires
        prefix.len() > 0,
        resolve_patterns(ps, prefix, path, is_dir, attr) is Some,
    ensures
        (path == prefix && is_dir) || (path.len() > prefix.len() && path.subrange(
            0,
            prefix.len() as int,
        ) == prefix && path[prefix.len() as int] == 47),
    decreases ps.len(),
{
    if ps.len() > 0 {
        if !pattern_decides(ps.last(), prefix, path, is_dir, attr) {
            lemma_scope_containment(ps.drop_last(), prefix, path, is_dir, attr);
        }
    }
}

/// Law — last wins across layers: a layer chained later shadows all earlier
/// ones. If any of its lines decides the attribute, that decision stands;
/// only when it stays silent do the earlier layers speak.
pub proof fn lemma_later_layer_wins(
    layers: Seq<LayerModel>,
    l: LayerModel,
    path: Seq<u8>,
    is_dir: bool,
    attr: Seq<u8>,
)
    ensures
        resolve_layers(layers.push(l), path, is_dir, attr) == match resolve_patterns(
            l.patterns,
            l.prefix,
            path,
            is_dir,
            attr,
        ) {
            Some(s) => Some(s),
            None => resolve_layers(layers, path, is_dir, attr),
        },
{
    assert(layers.push(l).last() == l);
    assert(layers.push(l).drop_last() =~= layers);
}

/// Law — last wins within a file: a later line shadows earlier ones. If it
/// decides the attribute, the result is its first assignment of that
/// attribute; otherwise the earlier lines are consulted.
pub proof fn lemma_later_pattern_wins(
    ps: Seq<PatternModel>,
    p: PatternModel,
    prefix: Seq<u8>,
    path: Seq<u8>,
    is_dir: bool,
    attr: Seq<u8>,
)
    ensures
        resolve_patterns(ps.push(p), prefix, path, is_dir, attr) == if pattern_decides(
            p,
            prefix,
            path,
            is_dir,
            attr,
        ) {
            first_state_for(p.assignments, attr)
        } else {
            resolve_patterns(ps, prefix, path, is_dir, attr)
        },
{
    assert(ps.push(p).last() == p);
    assert(ps.push(p).drop_last() =~= ps);
}

/// Law — directory-only patterns: a pattern whose glob ends in `/` never
/// decides for a candidate that is not a directory.
pub proof fn lemma_dir_only_needs_dir(
    p: PatternModel,
    prefix: Seq<u8>,
    path: Seq<u8>,
    attr: Seq<u8>,
)
    requires
        p.dir_only,
    ensures
        !pattern_decides(p, prefix, path, false, attr),
{
}

/// Finds the first state `asgns` give `attr`, in file order.
fn first_state_exec(asgns: &Vec<Assignment>, attr: &[u8]) -> (r: Option<AttrState>)
    ensures
        match r {
            Some(s) => first_state_for(asgns@.map_values(|a: Assignment| a@), attr@) == Some(s@),
            None => first_state_for(asgns@.map_values(|a: Assignment| a@), attr@) is None,
        },
{
    let ghost models = asgns@.map_values(|a: Assignment| a@);
    let mut i: usize = 0;
    proof {
        assert(models.skip(0) =~= models);
    }
    while i < asgns.len()
        invariant
            i <= asgns@.len(),
            models == asgns@.map_values(|a: Assignment| a@),
            first_state_for(models, attr@) == first_state_for(models.skip(i as int), attr@),
        decreases asgns@.len() - i,
    {
        if crate::scan::bytes_eq(asgns[i].name.as_slice(), attr) {
            let s = clone_state(&asgns[i].state);
            proof {
                assert(models.skip(i as int)[0] == models[i as int]);
            }
            return Some(s);
        }
        proof {
            assert(models.skip(i as int)[0] == models[i as int]);
            assert(models.skip(i as int).drop_first() =~= models.skip(i + 1));
        }
        i += 1;
    }
    proof {
        assert(models.skip(asgns@.len() as int) =~= Seq::<AssignmentModel>::empty());
    }
    None
}

/// Decides whether the candidate lies in the scope of a layer at `prefix`.
fn in_scope_exec(prefix: &[u8], path: &[u8], is_dir: bool) -> (r: bool)
    ensures
        r == in_scope(prefix@, path@, is_dir),
{
    if prefix.len() == 0 {
        return true;
    }
    if is_dir && crate::scan::bytes_eq(path, prefix) {
        return true;
    }
    if path.len() > prefix.len() && crate::scan::starts_with_bytes(path, prefix) && path[prefix.len()]
        == 47 {
        return true;
    }
    false
}

/// An immutable stack of pattern lists in load order: outermost global
/// sources first, then the workspace root, then progressively deeper
/// directories.
#[derive(Debug, Clone)]
pub struct AttributeStack {
    /// The layers, in load order.
    pub layers: Vec<PatternList>,
}

impl View for AttributeStack {
    type V = Seq<LayerModel>;

    open spec fn view(&self) -> Seq<LayerModel> {
        self.layers@.map_values(|l: PatternList| l@)
    }
}

impl AttributeStack {
    /// A stack with no layers.
    pub fn empty() -> (r: Self)
        ensures
            r@ == Seq::<LayerModel>::empty(),
    {
        let r = AttributeStack { layers: Vec::new() };
        proof {
            assert(r@ =~= Seq::<LayerModel>::empty());
        }
        r
    }

    /// Parses `input` as one gitattributes file scoped to `prefix` — a
    /// slash-separated workspace-relative directory, empty for the root —
    /// and returns a new stack with the list appended as top layer. The
    /// receiver is not changed.
    pub fn chain(&self, prefix: &[u8], input: &[u8]) -> (r: Self)
        ensures
            r@ == self@.push(
                LayerModel { prefix: prefix@, patterns: parse_file_spec(input@) },
            ),
    {
        let mut layers: Vec<PatternList> = Vec::new();
        let mut i: usize = 0;
        while i < self.layers.len()
            invariant
                i <= self.layers@.len(),
                layers@.len() == i,
                forall|j: int| 0 <= j < i ==> layers@[j]@ == self.layers@[j]@,
            decreases self.layers@.len() - i,
        {
            layers.push(clone_pattern_list(&self.layers[i]));
            i += 1;
        }
        layers.push(crate::parse::parse_pattern_list(input, prefix));
        let r = AttributeStack { layers };
        proof {
            assert(r@ =~= self@.push(
                LayerModel { prefix: prefix@, patterns: parse_file_spec(input@) },
            ));
        }
        r
    }

    /// The effective state of `attr` for the candidate `path`; a trailing
    /// `/` on `path`, or `is_dir`, marks the candidate a directory.
    #[verifier::loop_isolation(false)]
    pub fn resolve(&self, path: &[u8], is_dir: bool, attr: &[u8]) -> (r: AttrState)
        ensures
            r@ == resolve_spec(self@, path@, is_dir, attr@),
    {
        let (cand, d): (&[u8], bool) = if path.len() > 0 && path[path.len() - 1] == 47 {
            proof {
                assert(path@.subrange(0, path@.len() - 1) =~= path@.drop_last());
            }
            (vstd::slice::slice_subrange(path, 0, path.len() - 1), true)
        } else {
            (path, is_dir)
        };
        let mut li: usize = self.layers.len();
        proof {
            assert(self@.subrange(0, li as int) =~= self@);
        }
        while li > 0
            invariant
                li <= self.layers@.len(),
                resolve_layers(self@, cand@, d, attr@) == resolve_layers(
                    self@.subrange(0, li as int),
                    cand@,
                    d,
                    attr@,
                ),
            decreases li,
        {
            li -= 1;
            let layer = &self.layers[li];
            let ghost lm = self@[li as int];
            proof {
                assert(self@.subrange(0, li + 1).last() == lm);
                assert(self@.subrange(0, li + 1).drop_last() =~= self@.subrange(0, li as int));
            }
            if in_scope_exec(layer.source_prefix.as_slice(), cand, d) {
                let plen: usize = layer.source_prefix.len();
                let rel: &[u8] = if plen == 0 {
                    cand
                } else if cand.len() == plen {
                    proof {
                        assert(cand@ == lm.prefix);
                        assert(cand@.subrange(plen as int, plen as int) =~= Seq::<u8>::empty());
                    }
                    vstd::slice::slice_subrange(cand, plen, plen)
                } else {
                    proof {
                        assert(cand@.len() > plen);
                    }
                    vstd::slice::slice_subrange(cand, plen + 1, cand.len())
                };
                assert(rel@ == rel_candidate(lm.prefix, cand@));
                let mut pi: usize = layer.patterns.len();
                proof {
                    assert(lm.patterns.subrange(0, pi as int) =~= lm.patterns);
                }
                while pi > 0
                    invariant
                        pi <= layer.patterns@.len(),
                        resolve_patterns(lm.patterns, lm.prefix, cand@, d, attr@)
                            == resolve_patterns(
                            lm.patterns.subrange(0, pi as int),
                            lm.prefix,
                            cand@,
                            d,
                            attr@,
                        ),
                    decreases pi,
                {
                    pi -= 1;
                    let p = &layer.patterns[pi];
                    proof {
                        assert(lm.patterns[pi as int] == p@);
                        assert(lm.patterns.subrange(0, pi + 1).last() == p@);
                        assert(lm.patterns.subrange(0, pi + 1).drop_last() =~= lm.patterns.subrange(
                            0,
                            pi as int,
                        ));
                    }
                    if pattern_matches_candidate(p, rel, d) {
                        match first_state_exec(&p.assignments, attr) {
                            Some(st) => {
                                proof {
                                    assert(pattern_decides(p@, lm.prefix, cand@, d, attr@));
                                }
                                return st;
                            },
                            None => {
                                proof {
                                    assert(!pattern_decides(p@, lm.prefix, cand@, d, attr@));
                                }
                            },
                        }
                    } else {
                        proof {
                            assert(!pattern_decides(p@, lm.prefix, cand@, d, attr@));
                        }
                    }
                }
                proof {
                    assert(lm.patterns.subrange(0, 0) =~= Seq::<PatternModel>::empty());
                    assert(resolve_patterns(lm.patterns, lm.prefix, cand@, d, attr@) is None);
                }
            } else {
                proof {
                    lemma_out_of_scope_resolves_none(lm.patterns, lm.prefix, cand@, d, attr@);
                }
            }
        }
        proof {
            assert(self@.subrange(0, 0) =~= Seq::<LayerModel>::empty());
        }
        AttrState::Unspecified
    }
}

} // verus!

