//! The public façade: a stack of gitattributes layers together with a set of
//! ignore-filter names.
use vstd::prelude::*;

use crate::model::AttrState;
use crate::model::LayerModel;
use crate::model::StateModel;
use crate::parse::parse_file_spec;
use crate::resolve::AttributeStack;
use crate::resolve::resolve_spec;
use vstd::string::StringSliceAdditionalSpecFns;

verus! {

/// The error surface of the classifier: reading an explicitly requested
/// gitattributes file failed. Parse-level malformations are not errors —
/// bad lines are skipped — and chaining from bytes cannot fail.
#[derive(Debug, Clone)]
pub enum GitAttributesError {
    ReadFile { path: String, message: String },
}

/// The name of the one attribute the classifier consults: `filter`.
pub open spec fn filter_name() -> Seq<u8> {
    seq![102u8, 105u8, 108u8, 116u8, 101u8, 114u8]
}

/// Model of [`GitAttributesFile`]: the layers of its stack and the byte
/// strings of its ignore-filter names.
pub struct ClassifierModel {
    pub layers: Seq<LayerModel>,
    pub filters: Seq<Seq<u8>>,
}

/// Whether the classifier matches a candidate path: the resolved state of
/// the `filter` attribute is a value, and that value is one of the ignore
/// filters. `Unspecified`, `Set` and `Unset` never match; in particular a
/// later `-filter` line resets a match away.
pub open spec fn matches_spec(c: ClassifierModel, path: Seq<u8>) -> bool {
    match resolve_spec(c.layers, path, false, filter_name()) {
        StateModel::Value(v) => c.filters.contains(v),
        _ => false,
    }
}

/// Models the effective contents of multiple gitattributes files, together
/// with the filter names whose paths the consumer wants to skip. Immutable:
/// `chain` returns a new value and never touches its receiver.
#[derive(Debug, Clone)]
pub struct GitAttributesFile {
    /// The stack of gitattributes layers, in load order.
    pub stack: AttributeStack,
    /// The filter names whose paths the consumer wants to skip, as byte
    /// strings.
    pub ignore_filters: Vec<Vec<u8>>,
}

impl View for GitAttributesFile {
    type V = ClassifierModel;

    open spec fn view(&self) -> ClassifierModel {
        ClassifierModel {
            layers: self.stack@,
            filters: self.ignore_filters@.map_values(|f: Vec<u8>| f@),
        }
    }
}

/// Builds the byte string of the `filter` attribute name.
fn filter_name_vec() -> (r: Vec<u8>)
    ensures
        r@ == filter_name(),
{
    let mut v: Vec<u8> = Vec::new();
    v.push(102);
    v.push(105);
    v.push(108);
    v.push(116);
    v.push(101);
    v.push(114);
    proof {
        assert(v@ =~= filter_name());
    }
    v
}

impl GitAttributesFile {
    /// A classifier with an empty stack that will match paths whose resolved
    /// `filter` value is one of `ignore_filters`.
    pub fn new(ignore_filters: &[String]) -> (r: Self)
        ensures
            r@.layers == Seq::<LayerModel>::empty(),
            r@.filters == ignore_filters@.map_values(
                |s: String| vstd::utf8::encode_utf8(s@),
            ),
    {
        let mut filters: Vec<Vec<u8>> = Vec::new();
        let mut i: usize = 0;
        while i < ignore_filters.len()
            invariant
                i <= ignore_filters@.len(),
                filters@.len() == i,
                forall|j: int| 0 <= j < i ==> filters@[j]@ == vstd::utf8::encode_utf8(
                    ignore_filters@[j]@,
                ),
            decreases ignore_filters@.len() - i,
        {
            let name = vstd::string::StrSliceExecFns::as_bytes_vec(ignore_filters[i].as_str());
            filters.push(name);
            i += 1;
        }
        let r = GitAttributesFile { stack: AttributeStack::empty(), ignore_filters: filters };
        proof {
            assert(r@.filters =~= ignore_filters@.map_values(
                |s: String| vstd::utf8::encode_utf8(s@),
            ));
        }
        r
    }

    /// Returns a new classifier whose stack has one more layer: `input`
    /// parsed as a gitattributes file scoped to `prefix`, a slash-separated
    /// workspace-relative directory, empty for the workspace root. The
    /// receiver is left as it is — chaining never alters what an existing
    /// classifier matches — and parsing cannot fail, so the result is always
    /// `Ok`.
    pub fn chain(&self, prefix: &str, input: &[u8]) -> (r: Result<Self, GitAttributesError>)
        ensures
            match r {
                Ok(c) => {
                    &&& c@.layers == self@.layers.push(
                        LayerModel {
                            prefix: prefix.spec_bytes(),
                            patterns: parse_file_spec(input@),
                        },
                    )
                    &&& c@.filters == self@.filters
                },
                Err(_) => false,
            },
    {
        let stack = self.stack.chain(prefix.as_bytes(), input);
        let mut filters: Vec<Vec<u8>> = Vec::new();
        let mut i: usize = 0;
        while i < self.ignore_filters.len()
            invariant
                i <= self.ignore_filters@.len(),
                filters@.len() == i,
                forall|j: int| 0 <= j < i ==> filters@[j]@ == self.ignore_filters@[j]@,
            decreases self.ignore_filters@.len() - i,
        {
            filters.push(crate::scan::copy_bytes(self.ignore_filters[i].as_slice()));
            i += 1;
        }
        let r = GitAttributesFile { stack, ignore_filters: filters };
        proof {
            assert(r@.filters =~= self@.filters);
        }
        Ok(r)
    }

    /// The effective state of `attr_name` for the candidate `path`; a
    /// trailing `/` on `path`, or `is_dir`, marks the candidate a directory.
    pub fn resolve(&self, path: &str, is_dir: bool, attr_name: &str) -> (r: AttrState)
        ensures
            r@ == resolve_spec(self@.layers, path.spec_bytes(), is_dir, attr_name.spec_bytes()),
    {
        self.stack.resolve(path.as_bytes(), is_dir, attr_name.as_bytes())
    }

    /// True iff git's attribute resolution gives `path` a `filter=<name>`
    /// whose name is one of the classifier's ignore filters. A trailing `/`
    /// marks `path` as a directory. Any other resolved state — unspecified,
    /// set, or unset through a `-filter` line — yields false.
    #[verifier::loop_isolation(false)]
    pub fn matches(&self, path: &str) -> (r: bool)
        ensures
            r == matches_spec(self@, path.spec_bytes()),
    {
        let attr = filter_name_vec();
        let st = self.stack.resolve(path.as_bytes(), false, attr.as_slice());
        match st {
            AttrState::Value(v) => {
                let mut i: usize = 0;
                while i < self.ignore_filters.len()
                    invariant
                        i <= self.ignore_filters@.len(),
                        forall|j: int| 0 <= j < i ==> self@.filters[j] != v@,
                    decreases self.ignore_filters@.len() - i,
                {
                    if crate::scan::bytes_eq(self.ignore_filters[i].as_slice(), v.as_slice()) {
                        assert(self@.filters.contains(v@)) by {
                            assert(self@.filters[i as int] == v@);
                        }
                        return true;
                    }
                    i += 1;
                }
                assert(!self@.filters.contains(v@));
                false
            },
            _ => false,
        }
    }
}

impl Default for GitAttributesFile {
    /// A classifier with an empty stack and no ignore filters; global
    /// attribute sources, when wanted, are chained onto it by the caller.
    fn default() -> (r: Self)
        ensures
            r@.layers == Seq::<LayerModel>::empty(),
            r@.filters == Seq::<Seq<u8>>::empty(),
    {
        let r = GitAttributesFile {
            stack: AttributeStack::empty(),
            ignore_filters: Vec::new(),
        };
        proof {
            assert(r@.filters =~= Seq::<Seq<u8>>::empty());
        }
        r
    }
}

/// Law — empty-stack neutrality: a classifier with no layers matches no
/// path, whatever its filter set.
pub proof fn lemma_empty_stack_neutral(filters: Seq<Seq<u8>>, path: Seq<u8>)
    ensures
        !matches_spec(ClassifierModel { layers: Seq::empty(), filters }, path),
{
    let (p, d) = crate::resolve::normalize_candidate(path, false);
    assert(crate::resolve::resolve_layers(Seq::<LayerModel>::empty(), p, d, filter_name())
        is None);
}

/// Law — filter-name gating: when resolution gives a path `filter=x`, the
/// classifier matches it exactly when `x` is one of its ignore filters.
pub proof fn lemma_filter_name_gating(c: ClassifierModel, path: Seq<u8>, x: Seq<u8>)
    requires
        resolve_spec(c.layers, path, false, filter_name()) == StateModel::Value(x),
    ensures
        matches_spec(c, path) == c.filters.contains(x),
{
}

/// Law — negation honored: when the resolved state of `filter` is anything
/// but a value — in particular `Unset`, left by a later `-filter` line with
/// no still-later reassignment — the classifier does not match the path.
pub proof fn lemma_non_value_never_matches(c: ClassifierModel, path: Seq<u8>)
    requires
        !(resolve_spec(c.layers, path, false, filter_name()) is Value),
    ensures
        !matches_spec(c, path),
{
}

} // verus!
