//! The parser: any string becomes a version record.
//!
//! Segmentation is fixed and left to right: the text before the first `:`
//! is read as the epoch, the text after the first `+` of the remainder is
//! the build metadata, the text after the first `-` of what is left is the
//! pre-release tag, and the rest splits on `.` and `-` into components.
//! No input is rejected.

use vstd::prelude::*;

use crate::text::{
    find_at, find_char, find_delim_at, lemma_find_at_props, lemma_find_delim_at_props, parse_u64,
    spec_parse_u64, str_find_char, str_find_delim,
};
use crate::version::{lemma_views_of_push, views_of, view_of_opt, Version, VersionView};

verus! {

/// The component tokens of `m`: `m` cut at every `.` and `-`, with empty
/// tokens kept, so that any text yields at least one token.
pub open spec fn spec_split(m: Seq<char>) -> Seq<Seq<char>>
    decreases m.len(),
    via spec_split_decreases
{
    match find_delim_at(m, 0) {
        None => seq![m],
        Some(j) => seq![m.subrange(0, j)] + spec_split(m.subrange(j + 1, m.len() as int)),
    }
}

#[via_fn]
proof fn spec_split_decreases(m: Seq<char>) {
    lemma_find_delim_at_props(m, 0);
}

/// Splitting yields at least one token.
pub proof fn lemma_spec_split_len(m: Seq<char>)
    ensures
        spec_split(m).len() >= 1,
    decreases m.len(),
{
    lemma_find_delim_at_props(m, 0);
    if let Some(j) = find_delim_at(m, 0) {
        lemma_spec_split_len(m.subrange(j + 1, m.len() as int));
    }
}

/// The record text `s` denotes.
///
/// The epoch candidate is the text before the first `:`; when there is no
/// `:` the whole input is both the candidate and the remainder, so a bare
/// numeral such as `"12345"` yields an epoch *and* components drawn from
/// the same text.  That overlap is deliberate and part of the grammar.
pub open spec fn spec_parse(s: Seq<char>) -> VersionView {
    let epoch_text = match find_char(s, ':') {
        Some(i) => s.subrange(0, i),
        None => s,
    };
    let rest = match find_char(s, ':') {
        Some(i) => s.subrange(i + 1, s.len() as int),
        None => s,
    };
    let body = match find_char(rest, '+') {
        Some(i) => rest.subrange(0, i),
        None => rest,
    };
    let build = match find_char(rest, '+') {
        Some(i) => Some(rest.subrange(i + 1, rest.len() as int)),
        None => None,
    };
    let main = match find_char(body, '-') {
        Some(i) => body.subrange(0, i),
        None => body,
    };
    let pre = match find_char(body, '-') {
        Some(i) => Some(body.subrange(i + 1, body.len() as int)),
        None => None,
    };
    VersionView {
        epoch: spec_parse_u64(epoch_text),
        components: spec_split(main),
        pre_release: pre,
        build_metadata: build,
    }
}

/// A parsed record has at least one component.
pub proof fn lemma_spec_parse_wf(s: Seq<char>)
    ensures
        spec_parse(s).wf(),
{
    let rest = match find_char(s, ':') {
        Some(i) => s.subrange(i + 1, s.len() as int),
        None => s,
    };
    let body = match find_char(rest, '+') {
        Some(i) => rest.subrange(0, i),
        None => rest,
    };
    let main = match find_char(body, '-') {
        Some(i) => body.subrange(0, i),
        None => body,
    };
    lemma_spec_split_len(main);
}

/// Parsing the same text always yields the same record, field for field.
pub proof fn lemma_parse_deterministic(s: Seq<char>, a: VersionView, b: VersionView)
    requires
        a == spec_parse(s),
        b == spec_parse(s),
    ensures
        a == b,
{
}

/// Cuts `m` at every `.` and `-`, keeping empty tokens.
fn split_components(m: &str) -> (r: Vec<String>)
    ensures
        views_of(r@) == spec_split(m@),
        r@.len() >= 1,
{
    let mut result: Vec<String> = Vec::new();
    let mut rest: &str = m;
    loop
        invariant_except_break
            views_of(result@) + spec_split(rest@) =~= spec_split(m@),
        ensures
            views_of(result@) =~= spec_split(m@),
        decreases rest@.len(),
    {
        let rn = rest.unicode_len();
        let found = str_find_delim(rest);
        proof {
            lemma_find_delim_at_props(rest@, 0);
        }
        match found {
            Some(j) => {
                let ghost old_views = views_of(result@);
                let ghost tail = rest@.subrange(j + 1, rn as int);
                let tok = String::from_str(rest.substring_char(0, j));
                result.push(tok);
                proof {
                    lemma_views_of_push(result@.drop_last(), tok);
                    assert(result@.drop_last() =~= result@.subrange(0, result@.len() - 1));
                    assert(views_of(result@) =~= old_views.push(tok@));
                    assert(spec_split(rest@) =~= seq![tok@] + spec_split(tail));
                    assert(old_views.push(tok@) + spec_split(tail) =~= old_views + spec_split(
                        rest@,
                    ));
                }
                rest = rest.substring_char(j + 1, rn);
            },
            None => {
                let ghost old_views = views_of(result@);
                let tok = String::from_str(rest);
                result.push(tok);
                proof {
                    lemma_views_of_push(result@.drop_last(), tok);
                    assert(views_of(result@) =~= old_views.push(tok@));
                    assert(spec_split(rest@) =~= seq![tok@]);
                    assert(old_views.push(tok@) =~= old_views + spec_split(rest@));
                }
                break ;
            },
        }
    }
    proof {
        lemma_spec_split_len(m@);
    }
    result
}

impl Version {
    /// Reads a version string into a record.  Total: every input, however
    /// malformed, produces a record with at least one component.
    pub fn parse(version_str: &str) -> (r: Version)
        ensures
            r@ == spec_parse(version_str@),
            r@.wf(),
    {
        let n = version_str.unicode_len();
        let colon = str_find_char(version_str, ':');
        proof {
            lemma_find_at_props(version_str@, ':', 0);
        }
        let (epoch_text, rest): (&str, &str) = match colon {
            Some(i) => (version_str.substring_char(0, i), version_str.substring_char(i + 1, n)),
            None => (version_str, version_str),
        };
        let epoch = parse_u64(epoch_text);

        let rn = rest.unicode_len();
        let plus = str_find_char(rest, '+');
        proof {
            lemma_find_at_props(rest@, '+', 0);
        }
        let (body, build_metadata): (&str, Option<String>) = match plus {
            Some(i) => (
                rest.substring_char(0, i),
                Some(String::from_str(rest.substring_char(i + 1, rn))),
            ),
            None => (rest, None),
        };

        let bn = body.unicode_len();
        let dash = str_find_char(body, '-');
        proof {
            lemma_find_at_props(body@, '-', 0);
        }
        let (main, pre_release): (&str, Option<String>) = match dash {
            Some(i) => (
                body.substring_char(0, i),
                Some(String::from_str(body.substring_char(i + 1, bn))),
            ),
            None => (body, None),
        };

        let components = split_components(main);
        let r = Version { epoch, components, pre_release, build_metadata };
        proof {
            lemma_spec_parse_wf(version_str@);
        }
        r
    }
}

impl Default for Version {
    /// The record of `"0.0.1"`.
    fn default() -> (r: Version)
        ensures
            r@ == spec_parse("0.0.1"@),
    {
        Version::parse("0.0.1")
    }
}

} // verus!
