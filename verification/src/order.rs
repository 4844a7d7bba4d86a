//! The comparator: a rank over version records.
//!
//! Precedence is decided by epoch first (an absent epoch ranks below any
//! present one), then component by component up to the length of the
//! shorter component list, then by pre-release tag (an absent tag ranks
//! above any present one; two present tags compare case-insensitively).
//! Build metadata is never consulted.

use vstd::prelude::*;

use crate::text::{compare_str, parse_u64, spec_cmp_seq, spec_parse_u64};
use crate::version::{Version, VersionView};

verus! {

use core::cmp::Ordering;

/// Numeric order on `u64`, as an `Ordering`.
pub open spec fn spec_cmp_u64(a: u64, b: u64) -> Ordering {
    if a < b {
        Ordering::Less
    } else if b < a {
        Ordering::Greater
    } else {
        Ordering::Equal
    }
}

/// Epoch order: absent ranks below present; present epochs compare
/// numerically.
pub open spec fn spec_cmp_epoch(a: Option<u64>, b: Option<u64>) -> Ordering {
    match (a, b) {
        (Option::None, Option::None) => Ordering::Equal,
        (Option::None, Option::Some(_)) => Ordering::Less,
        (Option::Some(_), Option::None) => Ordering::Greater,
        (Option::Some(x), Option::Some(y)) => spec_cmp_u64(x, y),
    }
}

/// Order of one component pair: numerically when both tokens are numerals,
/// with a numeral below any non-numeral, else lexicographically.
pub open spec fn spec_cmp_token(a: Seq<char>, b: Seq<char>) -> Ordering {
    match (spec_parse_u64(a), spec_parse_u64(b)) {
        (Option::Some(x), Option::Some(y)) => spec_cmp_u64(x, y),
        (Option::Some(_), Option::None) => Ordering::Less,
        (Option::None, Option::Some(_)) => Ordering::Greater,
        (Option::None, Option::None) => spec_cmp_seq(a, b),
    }
}

/// Component order: pairwise, index by index, only up to the length of the
/// shorter list; trailing components of the longer list are never examined.
pub open spec fn spec_cmp_components(a: Seq<Seq<char>>, b: Seq<Seq<char>>) -> Ordering
    decreases a.len(),
{
    if a.len() == 0 || b.len() == 0 {
        Ordering::Equal
    } else {
        match spec_cmp_token(a[0], b[0]) {
            Ordering::Equal => spec_cmp_components(a.drop_first(), b.drop_first()),
            o => o,
        }
    }
}

/// The case fold `str::to_lowercase` performs, named but left unspecified.
pub uninterp spec fn lower_of(s: Seq<char>) -> Seq<char>;

/// Relies on `str::to_lowercase`: its result depends on the characters of
/// `s` alone, here named `lower_of`.
#[verifier::external_body]
fn lowercase(s: &str) -> (r: String)
    ensures
        r@ == lower_of(s@),
{
    s.to_lowercase()
}

/// Pre-release order: absent ranks above present; two present tags compare
/// lexicographically after case folding.
pub open spec fn spec_cmp_pre(a: Option<Seq<char>>, b: Option<Seq<char>>) -> Ordering {
    match (a, b) {
        (Option::None, Option::None) => Ordering::Equal,
        (Option::None, Option::Some(_)) => Ordering::Greater,
        (Option::Some(_), Option::None) => Ordering::Less,
        (Option::Some(x), Option::Some(y)) => spec_cmp_seq(lower_of(x), lower_of(y)),
    }
}

/// The rank of two records: epoch, then components, then pre-release.
/// Build metadata never takes part.
pub open spec fn spec_cmp(a: VersionView, b: VersionView) -> Ordering {
    match spec_cmp_epoch(a.epoch, b.epoch) {
        Ordering::Equal => match spec_cmp_components(a.components, b.components) {
            Ordering::Equal => spec_cmp_pre(a.pre_release, b.pre_release),
            o => o,
        },
        o => o,
    }
}

/// Compares one component pair.
fn compare_component(a: &String, b: &String) -> (r: Ordering)
    ensures
        r == spec_cmp_token(a@, b@),
{
    let an = parse_u64(a.as_str());
    let bn = parse_u64(b.as_str());
    match (an, bn) {
        (Option::Some(x), Option::Some(y)) => {
            if x < y {
                Ordering::Less
            } else if y < x {
                Ordering::Greater
            } else {
                Ordering::Equal
            }
        },
        (Option::Some(_), Option::None) => Ordering::Less,
        (Option::None, Option::Some(_)) => Ordering::Greater,
        (Option::None, Option::None) => compare_str(a.as_str(), b.as_str()),
    }
}

impl Version {
    /// Ranks `self` against `other`: by epoch, then component by component
    /// up to the shorter list, then by pre-release tag.  Build metadata is
    /// ignored, so records differing only there rank as equal.
    pub fn cmp(&self, other: &Version) -> (r: Ordering)
        ensures
            r == spec_cmp(self@, other@),
    {
        match (self.epoch, other.epoch) {
            (Option::None, Option::None) => {},
            (Option::None, Option::Some(_)) => {
                return Ordering::Less;
            },
            (Option::Some(_), Option::None) => {
                return Ordering::Greater;
            },
            (Option::Some(x), Option::Some(y)) => {
                if x < y {
                    return Ordering::Less;
                }
                if y < x {
                    return Ordering::Greater;
                }
            },
        }
        let ghost ac = self@.components;
        let ghost bc = other@.components;
        let alen = self.components.len();
        let blen = other.components.len();
        let m = if alen < blen {
            alen
        } else {
            blen
        };
        let mut i: usize = 0;
        proof {
            assert(ac.skip(0) =~= ac);
            assert(bc.skip(0) =~= bc);
        }
        while i < m
            invariant
                0 <= i <= m,
                m <= alen,
                m <= blen,
                ac == self@.components,
                bc == other@.components,
                alen == ac.len(),
                blen == bc.len(),
                m == alen || m == blen,
                spec_cmp_epoch(self@.epoch, other@.epoch) == Ordering::Equal,
                spec_cmp_components(ac, bc) == spec_cmp_components(
                    ac.skip(i as int),
                    bc.skip(i as int),
                ),
            decreases m - i,
        {
            let t = compare_component(&self.components[i], &other.components[i]);
            proof {
                assert(ac.skip(i as int)[0] == ac[i as int]);
                assert(bc.skip(i as int)[0] == bc[i as int]);
            }
            match t {
                Ordering::Equal => {
                    proof {
                        assert(ac.skip(i as int).drop_first() =~= ac.skip(i + 1));
                        assert(bc.skip(i as int).drop_first() =~= bc.skip(i + 1));
                    }
                    i = i + 1;
                },
                _ => {
                    return t;
                },
            }
        }
        proof {
            assert(ac.skip(i as int).len() == 0 || bc.skip(i as int).len() == 0);
        }
        match (self.pre_release.as_ref(), other.pre_release.as_ref()) {
            (Option::None, Option::None) => Ordering::Equal,
            (Option::None, Option::Some(_)) => Ordering::Greater,
            (Option::Some(_), Option::None) => Ordering::Less,
            (Option::Some(pa), Option::Some(pb)) => {
                let la = lowercase(pa.as_str());
                let lb = lowercase(pb.as_str());
                compare_str(la.as_str(), lb.as_str())
            },
        }
    }
}

/// The mirrored outcome: `Less` and `Greater` exchange places and
/// `Equal` stays itself.
pub open spec fn flip(o: Ordering) -> Ordering {
    match o {
        Ordering::Less => Ordering::Greater,
        Ordering::Equal => Ordering::Equal,
        Ordering::Greater => Ordering::Less,
    }
}

proof fn lemma_cmp_seq_flip(a: Seq<char>, b: Seq<char>)
    ensures
        spec_cmp_seq(b, a) == flip(spec_cmp_seq(a, b)),
    decreases a.len() + b.len(),
{
    if a.len() > 0 && b.len() > 0 {
        lemma_cmp_seq_flip(a.drop_first(), b.drop_first());
    }
}

proof fn lemma_cmp_token_flip(a: Seq<char>, b: Seq<char>)
    ensures
        spec_cmp_token(b, a) == flip(spec_cmp_token(a, b)),
{
    lemma_cmp_seq_flip(a, b);
}

proof fn lemma_cmp_components_flip(a: Seq<Seq<char>>, b: Seq<Seq<char>>)
    ensures
        spec_cmp_components(b, a) == flip(spec_cmp_components(a, b)),
    decreases a.len(),
{
    if a.len() > 0 && b.len() > 0 {
        lemma_cmp_token_flip(a[0], b[0]);
        lemma_cmp_components_flip(a.drop_first(), b.drop_first());
    }
}

proof fn lemma_cmp_seq_refl(a: Seq<char>)
    ensures
        spec_cmp_seq(a, a) == Ordering::Equal,
    decreases a.len(),
{
    if a.len() > 0 {
        lemma_cmp_seq_refl(a.drop_first());
    }
}

proof fn lemma_cmp_components_refl(a: Seq<Seq<char>>)
    ensures
        spec_cmp_components(a, a) == Ordering::Equal,
    decreases a.len(),
{
    if a.len() > 0 {
        lemma_cmp_seq_refl(a[0]);
        lemma_cmp_components_refl(a.drop_first());
    }
}

proof fn lemma_cmp_seq_trans(a: Seq<char>, b: Seq<char>, c: Seq<char>)
    ensures
        spec_cmp_seq(a, b) == Ordering::Less && spec_cmp_seq(b, c) == Ordering::Less
            ==> spec_cmp_seq(a, c) == Ordering::Less,
        spec_cmp_seq(a, b) == Ordering::Less && spec_cmp_seq(b, c) == Ordering::Equal
            ==> spec_cmp_seq(a, c) == Ordering::Less,
        spec_cmp_seq(a, b) == Ordering::Equal && spec_cmp_seq(b, c) == Ordering::Less
            ==> spec_cmp_seq(a, c) == Ordering::Less,
        spec_cmp_seq(a, b) == Ordering::Equal && spec_cmp_seq(b, c) == Ordering::Equal
            ==> spec_cmp_seq(a, c) == Ordering::Equal,
    decreases a.len() + b.len() + c.len(),
{
    if a.len() > 0 && b.len() > 0 && c.len() > 0 {
        lemma_cmp_seq_trans(a.drop_first(), b.drop_first(), c.drop_first());
    }
}

proof fn lemma_cmp_token_trans(a: Seq<char>, b: Seq<char>, c: Seq<char>)
    ensures
        spec_cmp_token(a, b) == Ordering::Less && spec_cmp_token(b, c) == Ordering::Less
            ==> spec_cmp_token(a, c) == Ordering::Less,
        spec_cmp_token(a, b) == Ordering::Less && spec_cmp_token(b, c) == Ordering::Equal
            ==> spec_cmp_token(a, c) == Ordering::Less,
        spec_cmp_token(a, b) == Ordering::Equal && spec_cmp_token(b, c) == Ordering::Less
            ==> spec_cmp_token(a, c) == Ordering::Less,
        spec_cmp_token(a, b) == Ordering::Equal && spec_cmp_token(b, c) == Ordering::Equal
            ==> spec_cmp_token(a, c) == Ordering::Equal,
{
    lemma_cmp_seq_trans(a, b, c);
}

proof fn lemma_cmp_components_trans(a: Seq<Seq<char>>, b: Seq<Seq<char>>, c: Seq<Seq<char>>)
    requires
        a.len() == b.len(),
        b.len() == c.len(),
    ensures
        spec_cmp_components(a, b) == Ordering::Less && spec_cmp_components(b, c) == Ordering::Less
            ==> spec_cmp_components(a, c) == Ordering::Less,
        spec_cmp_components(a, b) == Ordering::Less && spec_cmp_components(b, c) == Ordering::Equal
            ==> spec_cmp_components(a, c) == Ordering::Less,
        spec_cmp_components(a, b) == Ordering::Equal && spec_cmp_components(b, c) == Ordering::Less
            ==> spec_cmp_components(a, c) == Ordering::Less,
        spec_cmp_components(a, b) == Ordering::Equal && spec_cmp_components(b, c) == Ordering::Equal
            ==> spec_cmp_components(a, c) == Ordering::Equal,
    decreases a.len(),
{
    if a.len() > 0 {
        lemma_cmp_token_trans(a[0], b[0], c[0]);
        lemma_cmp_components_trans(a.drop_first(), b.drop_first(), c.drop_first());
    }
}

/// A record ranks as equal to itself.
pub proof fn lemma_cmp_refl(a: VersionView)
    ensures
        spec_cmp(a, a) == Ordering::Equal,
{
    lemma_cmp_components_refl(a.components);
    if let Some(p) = a.pre_release {
        lemma_cmp_seq_refl(lower_of(p));
    }
}

/// Ranking is antisymmetric: comparing in the opposite direction gives the
/// opposite verdict, so for any pair exactly one of `Less`, `Equal` and
/// `Greater` describes the first operand against the second.
pub proof fn lemma_cmp_antisym(a: VersionView, b: VersionView)
    ensures
        spec_cmp(b, a) == flip(spec_cmp(a, b)),
{
    lemma_cmp_components_flip(a.components, b.components);
    if a.pre_release is Some && b.pre_release is Some {
        lemma_cmp_seq_flip(lower_of(a.pre_release->0), lower_of(b.pre_release->0));
    }
}

/// Ranking is transitive over records whose component lists have one
/// length.  (Lists of unlike lengths are compared only up to the shorter
/// one, and the tokens that step never examines can break chaining.)
pub proof fn lemma_cmp_trans(a: VersionView, b: VersionView, c: VersionView)
    requires
        a.components.len() == b.components.len(),
        b.components.len() == c.components.len(),
    ensures
        spec_cmp(a, b) == Ordering::Less && spec_cmp(b, c) == Ordering::Less ==> spec_cmp(a, c)
            == Ordering::Less,
        spec_cmp(a, b) == Ordering::Less && spec_cmp(b, c) == Ordering::Equal ==> spec_cmp(a, c)
            == Ordering::Less,
        spec_cmp(a, b) == Ordering::Equal && spec_cmp(b, c) == Ordering::Less ==> spec_cmp(a, c)
            == Ordering::Less,
        spec_cmp(a, b) == Ordering::Equal && spec_cmp(b, c) == Ordering::Equal ==> spec_cmp(a, c)
            == Ordering::Equal,
{
    lemma_cmp_components_trans(a.components, b.components, c.components);
    if a.pre_release is Some && b.pre_release is Some && c.pre_release is Some {
        lemma_cmp_seq_trans(
            lower_of(a.pre_release->0),
            lower_of(b.pre_release->0),
            lower_of(c.pre_release->0),
        );
    }
}

/// Epoch dominance: a record with an epoch outranks one without, whatever
/// else the two hold.
pub proof fn lemma_epoch_dominance(a: VersionView, b: VersionView)
    requires
        a.epoch is Some,
        b.epoch is None,
        a.components == b.components,
        a.pre_release == b.pre_release,
        a.build_metadata == b.build_metadata,
    ensures
        spec_cmp(a, b) == Ordering::Greater,
{
}

/// A component that reads as a numeral ranks below one that does not,
/// whatever the magnitude of either.
pub proof fn lemma_numeral_below_text(a: Seq<char>, b: Seq<char>)
    requires
        spec_parse_u64(a) is Some,
        spec_parse_u64(b) is None,
    ensures
        spec_cmp_token(a, b) == Ordering::Less,
{
}

/// Pre-release dominance: a record without a pre-release tag outranks the
/// otherwise-identical record with one.
pub proof fn lemma_pre_release_dominance(a: VersionView, b: VersionView)
    requires
        a.pre_release is None,
        b.pre_release is Some,
        a.epoch == b.epoch,
        a.components == b.components,
        a.build_metadata == b.build_metadata,
    ensures
        spec_cmp(a, b) == Ordering::Greater,
{
    lemma_cmp_components_refl(a.components);
}

/// Build metadata never affects rank: two records differing only there
/// rank as equal, yet are not field-wise equal.
pub proof fn lemma_build_metadata_ignored(a: VersionView, b: VersionView)
    requires
        a.epoch == b.epoch,
        a.components == b.components,
        a.pre_release == b.pre_release,
        a.build_metadata != b.build_metadata,
    ensures
        spec_cmp(a, b) == Ordering::Equal,
        a != b,
{
    lemma_cmp_components_refl(a.components);
    if let Some(p) = a.pre_release {
        lemma_cmp_seq_refl(lower_of(p));
    }
}

impl PartialOrd for Version {
    /// `<`, `<=`, `>` and `>=` on records go by rank, never by build
    /// metadata.
    fn partial_cmp(&self, other: &Self) -> (r: Option<Ordering>) {
        Some(self.cmp(other))
    }
}

impl vstd::std_specs::cmp::PartialOrdSpecImpl for Version {
    open spec fn obeys_partial_cmp_spec() -> bool {
        true
    }

    open spec fn partial_cmp_spec(&self, other: &Self) -> Option<Ordering> {
        Some(spec_cmp(self@, other@))
    }
}

} // verus!
