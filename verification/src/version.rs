//! The version record and its mathematical view.

use vstd::prelude::*;

verus! {

/// A structured version identifier.
///
/// Produced by [`Version::parse`]; any input string yields a record.  The
/// four fields are compared for rank by [`Version::cmp`] (which ignores
/// `build_metadata`) and for identity by `==` (which includes it).
pub struct Version {
    /// Optional precedence-override prefix, e.g. the `1` in `"1:2.3.4"`.
    pub epoch: Option<u64>,
    /// Dot/hyphen separated tokens of the main version body, kept as text.
    pub components: Vec<String>,
    /// Text after the first `-` of the main body, before any `+`.
    pub pre_release: Option<String>,
    /// Text after the first `+`, once the epoch has been stripped.
    pub build_metadata: Option<String>,
}

/// The mathematical value of a [`Version`]: the same four fields over
/// `Seq<char>` in place of `String`.
#[verifier::ext_equal]
pub struct VersionView {
    pub epoch: Option<u64>,
    pub components: Seq<Seq<char>>,
    pub pre_release: Option<Seq<char>>,
    pub build_metadata: Option<Seq<char>>,
}

/// The views of a sequence of strings, element by element.
pub open spec fn views_of(v: Seq<String>) -> Seq<Seq<char>> {
    Seq::new(v.len(), |i: int| v[i]@)
}

/// The view of an optional string.
pub open spec fn view_of_opt(v: Option<String>) -> Option<Seq<char>> {
    match v {
        Some(s) => Some(s@),
        None => None,
    }
}

impl View for Version {
    type V = VersionView;

    open spec fn view(&self) -> VersionView {
        VersionView {
            epoch: self.epoch,
            components: views_of(self.components@),
            pre_release: view_of_opt(self.pre_release),
            build_metadata: view_of_opt(self.build_metadata),
        }
    }
}

impl VersionView {
    /// Every record a parse can produce has at least one component.
    pub open spec fn wf(self) -> bool {
        self.components.len() >= 1
    }
}

/// Pushing a string onto a vector appends its view to the element views.
pub proof fn lemma_views_of_push(v: Seq<String>, s: String)
    ensures
        views_of(v.push(s)) =~= views_of(v).push(s@),
{
}

/// Whether two optional strings hold the same text.
fn eq_opt_string(a: &Option<String>, b: &Option<String>) -> (r: bool)
    ensures
        r == (view_of_opt(*a) == view_of_opt(*b)),
{
    match (a.as_ref(), b.as_ref()) {
        (Option::None, Option::None) => true,
        (Option::Some(x), Option::Some(y)) => x.eq(y),
        _ => false,
    }
}

/// Whether two component lists hold the same tokens in the same order.
fn eq_components(a: &Vec<String>, b: &Vec<String>) -> (r: bool)
    ensures
        r == (views_of(a@) == views_of(b@)),
{
    if a.len() != b.len() {
        assert(views_of(a@).len() != views_of(b@).len());
        return false;
    }
    let n = a.len();
    let mut i: usize = 0;
    while i < n
        invariant
            0 <= i <= n,
            n == a@.len(),
            n == b@.len(),
            forall|k: int| 0 <= k < i ==> views_of(a@)[k] == views_of(b@)[k],
        decreases n - i,
    {
        if !(a[i] == b[i]) {
            assert(views_of(a@)[i as int] != views_of(b@)[i as int]);
            return false;
        }
        assert(views_of(a@)[i as int] == views_of(b@)[i as int]);
        i = i + 1;
    }
    proof {
        assert(views_of(a@) =~= views_of(b@));
    }
    true
}

impl PartialEq for Version {
    /// Field-wise identity over all four fields, build metadata included.
    /// Distinct from rank: two records can rank as equal yet differ here.
    fn eq(&self, other: &Self) -> (r: bool) {
        let r = self.epoch == other.epoch && eq_components(&self.components, &other.components)
            && eq_opt_string(&self.pre_release, &other.pre_release) && eq_opt_string(
            &self.build_metadata,
            &other.build_metadata,
        );
        proof {
            if r {
                assert(self@ =~= other@);
            }
        }
        r
    }
}

impl Eq for Version {

}

impl vstd::std_specs::cmp::PartialEqSpecImpl for Version {
    open spec fn obeys_eq_spec() -> bool {
        true
    }

    open spec fn eq_spec(&self, other: &Self) -> bool {
        self@ == other@
    }
}

} // verus!
