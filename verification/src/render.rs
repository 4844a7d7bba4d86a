//! The formatter: canonical and diagnostic renderings of a record.
//!
//! The canonical form is `[epoch ":"] components joined by "." ["-" pre]
//! ["+" build]`.  The diagnostic form is a fixed-field rendering for
//! introspection; its component list shows each token in `Debug` form
//! (quoted and escaped), and its trailing field repeats the epoch rather
//! than the build metadata, which mirrors the behaviour this crate is
//! committed to reproduce for its existing consumers.

use vstd::prelude::*;

use crate::parse::{spec_parse, spec_split};
use crate::text::{
    find_char, is_delim, is_digit, lemma_find_at_absent, lemma_find_at_exact, lemma_find_delim_absent,
    lemma_find_delim_exact, lemma_parse_u64_of_digits, lemma_u64_digits_are_digits, no_char,
    spec_parse_u64, spec_u64_digits, u64_digits,
};
use crate::version::{Version, VersionView};

verus! {

/// The component tokens joined by `.`.
pub open spec fn spec_join(cs: Seq<Seq<char>>) -> Seq<char>
    decreases cs.len(),
{
    if cs.len() == 0 {
        Seq::empty()
    } else if cs.len() == 1 {
        cs[0]
    } else {
        cs[0] + seq!['.'] + spec_join(cs.drop_first())
    }
}

/// Joining one more token appends a dot and the token.
pub proof fn lemma_spec_join_push(cs: Seq<Seq<char>>, x: Seq<char>)
    requires
        cs.len() >= 1,
    ensures
        spec_join(cs.push(x)) =~= spec_join(cs) + seq!['.'] + x,
    decreases cs.len(),
{
    if cs.len() == 1 {
        reveal_with_fuel(spec_join, 2);
        assert(cs.push(x).drop_first() =~= seq![x]);
    } else {
        assert(cs.push(x).drop_first() =~= cs.drop_first().push(x));
        lemma_spec_join_push(cs.drop_first(), x);
    }
}

/// The canonical display of a record.
pub open spec fn spec_format(v: VersionView) -> Seq<char> {
    (match v.epoch {
        Some(e) => spec_u64_digits(e as int) + seq![':'],
        None => Seq::<char>::empty(),
    }) + spec_join(v.components) + (match v.pre_release {
        Some(p) => seq!['-'] + p,
        None => Seq::<char>::empty(),
    }) + (match v.build_metadata {
        Some(b) => seq!['+'] + b,
        None => Seq::<char>::empty(),
    })
}

/// What `str`'s `Debug` rendering yields for text: the characters between
/// double quotes, with quotes, backslashes and unprintable characters
/// escaped.  The exact escape rules rest on Unicode tables, so the result
/// is named rather than spelled out.
pub uninterp spec fn debug_str_of(s: Seq<char>) -> Seq<char>;

/// Relies on `str`'s `Debug` implementation, through `format!("{:?}", ..)`:
/// the quoted, escaped form of the text, a function of its characters
/// alone, here named `debug_str_of`.
#[verifier::external_body]
fn debug_str(s: &str) -> (r: String)
    ensures
        r@ == debug_str_of(s@),
{
    format!("{:?}", s)
}

/// The component tokens, each in its quoted and escaped `Debug` form,
/// joined by `, `.
pub open spec fn spec_join_quoted(cs: Seq<Seq<char>>) -> Seq<char>
    decreases cs.len(),
{
    if cs.len() == 0 {
        Seq::empty()
    } else if cs.len() == 1 {
        debug_str_of(cs[0])
    } else {
        debug_str_of(cs[0]) + seq![',', ' '] + spec_join_quoted(cs.drop_first())
    }
}

/// Joining one more quoted token appends a comma, a space and the token.
pub proof fn lemma_spec_join_quoted_push(cs: Seq<Seq<char>>, x: Seq<char>)
    requires
        cs.len() >= 1,
    ensures
        spec_join_quoted(cs.push(x)) =~= spec_join_quoted(cs) + seq![',', ' '] + debug_str_of(x),
    decreases cs.len(),
{
    if cs.len() == 1 {
        reveal_with_fuel(spec_join_quoted, 2);
        assert(cs.push(x).drop_first() =~= seq![x]);
    } else {
        assert(cs.push(x).drop_first() =~= cs.drop_first().push(x));
        lemma_spec_join_quoted_push(cs.drop_first(), x);
    }
}

/// The epoch a diagnostic shows: the value when present, else `0`.
pub open spec fn diag_epoch(v: VersionView) -> int {
    match v.epoch {
        Some(e) => e as int,
        None => 0,
    }
}

/// The diagnostic display of a record: epoch, the component list with
/// each token in its `Debug` form, and the pre-release tag, then the
/// epoch once more in the final field.
pub open spec fn spec_diagnostic(v: VersionView) -> Seq<char> {
    "epoch:"@ + spec_u64_digits(diag_epoch(v)) + " components:["@ + spec_join_quoted(v.components)
        + "] pre_release:"@ + (match v.pre_release {
        Some(p) => p,
        None => Seq::<char>::empty(),
    }) + " build_metadata:"@ + spec_u64_digits(diag_epoch(v))
}

/// A character absent from every token and different from the separator
/// is absent from the join.
proof fn lemma_join_no_char(cs: Seq<Seq<char>>, c: char)
    requires
        c != '.',
        forall|i: int| 0 <= i < cs.len() ==> no_char(#[trigger] cs[i], c),
    ensures
        no_char(spec_join(cs), c),
    decreases cs.len(),
{
    if cs.len() == 1 {
        assert(no_char(cs[0], c));
    } else if cs.len() >= 2 {
        let rest = cs.drop_first();
        assert(forall|i: int| 0 <= i < rest.len() ==> no_char(#[trigger] rest[i], c));
        lemma_join_no_char(rest, c);
        let j = spec_join(cs);
        let head = cs[0];
        let tail = spec_join(rest);
        assert(no_char(head, c));
        assert forall|k: int| 0 <= k < j.len() implies #[trigger] j[k] != c by {
            if k < head.len() {
                assert(j[k] == head[k]);
            } else if k == head.len() {
                assert(j[k] == '.');
            } else {
                assert(j[k] == tail[k - head.len() - 1]);
            }
        }
    }
}

/// Splitting a join of delimiter-free tokens gives the tokens back.
proof fn lemma_split_join(cs: Seq<Seq<char>>)
    requires
        cs.len() >= 1,
        forall|i: int| 0 <= i < cs.len() ==> no_char(#[trigger] cs[i], '.') && no_char(cs[i], '-'),
    ensures
        spec_split(spec_join(cs)) == cs,
    decreases cs.len(),
{
    let j = spec_join(cs);
    if cs.len() == 1 {
        lemma_find_delim_absent(j);
        assert(spec_split(j) == seq![j]);
        assert(seq![j] =~= cs);
    } else {
        let rest = cs.drop_first();
        let head = cs[0];
        let tail = spec_join(rest);
        let p = head.len() as int;
        assert(j[p] == '.');
        assert forall|k: int| 0 <= k < p implies !is_delim(#[trigger] j[k]) by {
            assert(j[k] == head[k]);
            assert(head[k] != '.' && head[k] != '-');
        }
        lemma_find_delim_exact(j, p);
        assert(j.subrange(0, p) =~= head);
        assert(j.subrange(p + 1, j.len() as int) =~= tail);
        assert(forall|i: int| 0 <= i < rest.len() ==> no_char(#[trigger] rest[i], '.') && no_char(
            rest[i],
            '-',
        ));
        lemma_split_join(rest);
        assert(spec_split(j) == seq![head] + rest);
        assert(seq![head] + rest =~= cs);
    }
}

/// A record of canonical shape: at least one component; no token holds a
/// delimiter or marker that parsing would cut at; the pre-release tag
/// holds no `+` or `:`; the build metadata holds no `:`; and when there is
/// no epoch the rendered text does not read as a bare numeral.
pub open spec fn canonical(v: VersionView) -> bool {
    &&& v.wf()
    &&& (forall|i: int|
        0 <= i < v.components.len() ==> no_char(#[trigger] v.components[i], '.') && no_char(
            v.components[i],
            '-',
        ) && no_char(v.components[i], '+') && no_char(v.components[i], ':'))
    &&& (match v.pre_release {
        Some(p) => no_char(p, '+') && no_char(p, ':'),
        None => true,
    })
    &&& (match v.build_metadata {
        Some(m) => no_char(m, ':'),
        None => true,
    })
    &&& (v.epoch is None ==> spec_parse_u64(spec_format(v)) is None)
}

/// Round trip: parsing the canonical display of a canonical record gives
/// the record back, field for field.
#[verifier::rlimit(60)]
pub proof fn lemma_parse_format_round_trip(v: VersionView)
    requires
        canonical(v),
    ensures
        spec_parse(spec_format(v)) == v,
{
    let s = spec_format(v);
    let join = spec_join(v.components);
    lemma_join_no_char(v.components, ':');
    lemma_join_no_char(v.components, '+');
    lemma_join_no_char(v.components, '-');
    let preblk = match v.pre_release {
        Some(p) => seq!['-'] + p,
        None => Seq::<char>::empty(),
    };
    let metablk = match v.build_metadata {
        Some(b) => seq!['+'] + b,
        None => Seq::<char>::empty(),
    };
    let rest0 = join + preblk + metablk;

    // rest0 holds no ':', and its first '+', if any, opens the metadata.
    assert forall|k: int| 0 <= k < rest0.len() implies #[trigger] rest0[k] != ':' by {
        if k < join.len() {
            assert(rest0[k] == join[k]);
        } else if k < join.len() + preblk.len() {
            assert(rest0[k] == preblk[k - join.len()]);
            if k > join.len() {
                assert(preblk[k - join.len()] == v.pre_release->0[k - join.len() - 1]);
            }
        } else {
            assert(rest0[k] == metablk[k - join.len() - preblk.len()]);
            if k > join.len() + preblk.len() {
                assert(metablk[k - join.len() - preblk.len()] == v.build_metadata->0[k - join.len()
                    - preblk.len() - 1]);
            }
        }
    }
    assert forall|k: int| 0 <= k < join.len() + preblk.len() implies #[trigger] rest0[k]
        != '+' by {
        if k < join.len() {
            assert(rest0[k] == join[k]);
        } else {
            assert(rest0[k] == preblk[k - join.len()]);
            if k > join.len() {
                assert(preblk[k - join.len()] == v.pre_release->0[k - join.len() - 1]);
            }
        }
    }

    // The epoch segment: the text before the first ':' reads back as the
    // epoch, and the remainder is exactly the unprefixed rendering.
    match v.epoch {
        Some(e) => {
            let digits = spec_u64_digits(e as int);
            lemma_u64_digits_are_digits(e as int);
            assert(s =~= digits + seq![':'] + rest0);
            let dlen = digits.len() as int;
            assert(s[dlen] == ':');
            assert forall|k: int| 0 <= k < dlen implies #[trigger] s[k] != ':' by {
                assert(s[k] == digits[k]);
                assert(is_digit(digits[k]));
            }
            lemma_find_at_exact(s, ':', dlen);
            assert(find_char(s, ':') == Some(dlen));
            assert(s.subrange(0, dlen) =~= digits);
            lemma_parse_u64_of_digits(e);
            assert(spec_parse(s).epoch == Some(e));
            assert(s.subrange(dlen + 1, s.len() as int) =~= rest0);
        },
        None => {
            assert(s =~= rest0);
            assert(no_char(s, ':'));
            lemma_find_at_absent(s, ':');
            assert(find_char(s, ':') is None);
            assert(spec_parse(s).epoch is None);
        },
    }
    let rest = match find_char(s, ':') {
        Some(i) => s.subrange(i + 1, s.len() as int),
        None => s,
    };
    assert(rest =~= rest0);

    // The build-metadata segment.
    match v.build_metadata {
        Some(m) => {
            let p = (join.len() + preblk.len()) as int;
            assert(rest[p] == '+');
            lemma_find_at_exact(rest, '+', p);
            assert(rest.subrange(0, p) =~= join + preblk);
            assert(rest.subrange(p + 1, rest.len() as int) =~= m);
        },
        None => {
            assert(rest =~= join + preblk);
            assert(no_char(rest, '+'));
            lemma_find_at_absent(rest, '+');
        },
    }
    let body = match find_char(rest, '+') {
        Some(i) => rest.subrange(0, i),
        None => rest,
    };
    assert(body =~= join + preblk);

    // The pre-release segment.
    match v.pre_release {
        Some(p) => {
            let q = join.len() as int;
            assert(body[q] == '-');
            assert forall|k: int| 0 <= k < q implies #[trigger] body[k] != '-' by {
                assert(body[k] == join[k]);
            }
            lemma_find_at_exact(body, '-', q);
            assert(body.subrange(0, q) =~= join);
            assert(body.subrange(q + 1, body.len() as int) =~= p);
        },
        None => {
            assert(body =~= join);
            assert forall|k: int| 0 <= k < body.len() implies #[trigger] body[k] != '-' by {
                assert(body[k] == join[k]);
            }
            lemma_find_at_absent(body, '-');
        },
    }
    let main = match find_char(body, '-') {
        Some(i) => body.subrange(0, i),
        None => body,
    };
    assert(main =~= join);

    // The components come back from the join untouched.
    lemma_split_join(v.components);
    assert(spec_split(main) == v.components);

    assert(spec_parse(s) =~= v);
}

/// Round trip, read from the text side: formatting the record parsed from
/// the canonical display of a canonical record reproduces that text.
pub proof fn lemma_format_parse_round_trip(s: Seq<char>, v: VersionView)
    requires
        canonical(v),
        s == spec_format(v),
    ensures
        spec_format(spec_parse(s)) == s,
{
    lemma_parse_format_round_trip(v);
}

impl Version {
    /// Renders the canonical display string, from which a record of
    /// canonical shape can be re-parsed.  Needs at least one component, as
    /// every parsed record has.
    pub fn to_string(&self) -> (r: String)
        requires
            self@.wf(),
        ensures
            r@ == spec_format(self@),
    {
        proof {
            reveal_strlit(":");
            reveal_strlit(".");
            reveal_strlit("-");
            reveal_strlit("+");
        }
        let ghost cs = self@.components;
        let mut s = String::new();
        if let Some(e) = self.epoch {
            let d = u64_digits(e);
            s.append(d.as_str());
            s.append(":");
        }
        let ghost head = s@;
        proof {
            assert(":"@ =~= seq![':']);
            match self@.epoch {
                Some(e) => assert(head =~= spec_u64_digits(e as int) + seq![':']),
                None => assert(head =~= Seq::<char>::empty()),
            }
        }
        let n = self.components.len();
        s.append(self.components[0].as_str());
        proof {
            assert(cs.take(1) =~= seq![cs[0]]);
            assert(s@ =~= head + spec_join(cs.take(1)));
        }
        let mut i: usize = 1;
        while i < n
            invariant
                1 <= i <= n,
                n == cs.len(),
                cs == self@.components,
                head == (match self@.epoch {
                    Some(e) => spec_u64_digits(e as int) + seq![':'],
                    None => Seq::<char>::empty(),
                }),
                s@ == head + spec_join(cs.take(i as int)),
            decreases n - i,
        {
            s.append(".");
            s.append(self.components[i].as_str());
            proof {
                reveal_strlit(".");
                assert(".".view() =~= seq!['.']);
                assert(cs.take(i + 1) =~= cs.take(i as int).push(cs[i as int]));
                lemma_spec_join_push(cs.take(i as int), cs[i as int]);
                assert(s@ =~= head + spec_join(cs.take(i + 1)));
            }
            i = i + 1;
        }
        proof {
            assert(cs.take(n as int) =~= cs);
        }
        let ghost mid = s@;
        if let Some(p) = self.pre_release.as_ref() {
            s.append("-");
            s.append(p.as_str());
        }
        proof {
            assert("-"@ =~= seq!['-']);
            match self@.pre_release {
                Some(p) => assert(s@ =~= mid + (seq!['-'] + p)),
                None => assert(s@ =~= mid),
            }
        }
        let ghost mid2 = s@;
        if let Some(b) = self.build_metadata.as_ref() {
            s.append("+");
            s.append(b.as_str());
        }
        proof {
            assert("+"@ =~= seq!['+']);
            match self@.build_metadata {
                Some(b) => assert(s@ =~= mid2 + (seq!['+'] + b)),
                None => assert(s@ =~= mid2),
            }
            assert(s@ =~= spec_format(self@));
        }
        s
    }

    /// Renders the diagnostic string.  Components appear as `Debug`
    /// renders text, quoted and escaped; an absent epoch or pre-release
    /// tag shows as `0` or as empty text; the last field repeats the
    /// epoch.
    pub fn debug_string(&self) -> (r: String)
        ensures
            r@ == spec_diagnostic(self@),
    {
        proof {
            reveal_strlit("epoch:");
            reveal_strlit(" components:[");
            reveal_strlit("] pre_release:");
            reveal_strlit(" build_metadata:");
        }
        let ghost cs = self@.components;
        let e: u64 = match self.epoch {
            Some(e) => e,
            None => 0,
        };
        let d = u64_digits(e);
        let mut s = String::new();
        s.append("epoch:");
        s.append(d.as_str());
        s.append(" components:[");
        let ghost head = s@;
        proof {
            assert(head =~= "epoch:"@ + spec_u64_digits(diag_epoch(self@)) + " components:["@);
        }
        let n = self.components.len();
        let mut i: usize = 0;
        proof {
            assert(cs.take(0) =~= Seq::<Seq<char>>::empty());
        }
        while i < n
            invariant
                0 <= i <= n,
                n == cs.len(),
                cs == self@.components,
                s@ == head + spec_join_quoted(cs.take(i as int)),
            decreases n - i,
        {
            if i > 0 {
                s.append(", ");
            }
            let q = debug_str(self.components[i].as_str());
            s.append(q.as_str());
            proof {
                reveal_strlit(", ");
                assert(", "@ =~= seq![',', ' ']);
                assert(cs.take(i + 1) =~= cs.take(i as int).push(cs[i as int]));
                if i == 0 {
                    assert(cs.take(1) =~= seq![cs[0]]);
                    assert(s@ =~= head + spec_join_quoted(cs.take(1)));
                } else {
                    lemma_spec_join_quoted_push(cs.take(i as int), cs[i as int]);
                    assert(s@ =~= head + spec_join_quoted(cs.take(i + 1)));
                }
            }
            i = i + 1;
        }
        proof {
            assert(cs.take(n as int) =~= cs);
        }
        let ghost mid = s@;
        s.append("] pre_release:");
        if let Some(p) = self.pre_release.as_ref() {
            s.append(p.as_str());
        }
        proof {
            match self@.pre_release {
                Some(p) => assert(s@ =~= mid + "] pre_release:"@ + p),
                None => assert(s@ =~= mid + "] pre_release:"@),
            }
        }
        let ghost mid2 = s@;
        s.append(" build_metadata:");
        s.append(d.as_str());
        proof {
            assert(s@ =~= mid2 + " build_metadata:"@ + spec_u64_digits(diag_epoch(self@)));
            assert(s@ =~= spec_diagnostic(self@));
        }
        s
    }
}

} // verus!
