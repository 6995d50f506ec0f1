//! Slugify a display string into a lowercase dash-separated identifier.
use vstd::prelude::*;
use crate::text::{ascii_lower, ascii_lower_exec, chars_of, is_ascii_alnum, is_ascii_alnum_exec, string_from_chars};

verus! {

/// The slug of `s` before its trailing dash is dropped: ASCII alphanumerics
/// are kept (lowercased), and each run of other characters that follows a
/// kept character becomes a single `-`.
pub open spec fn slug_raw(s: Seq<char>) -> Seq<char>
    decreases s.len(),
{
    if s.len() == 0 {
        seq![]
    } else {
        let prev = slug_raw(s.drop_last());
        let c = s.last();
        if is_ascii_alnum(c) {
            prev.push(ascii_lower(c))
        } else if prev.len() == 0 || prev.last() == '-' {
            prev
        } else {
            prev.push('-')
        }
    }
}

/// The slug of `s`: [`slug_raw`] without a trailing `-`.
pub open spec fn slug_spec(s: Seq<char>) -> Seq<char> {
    let r = slug_raw(s);
    if r.len() > 0 && r.last() == '-' {
        r.drop_last()
    } else {
        r
    }
}

/// A character a slug may hold: a lowercase ASCII letter, a digit, or `-`.
pub open spec fn is_slug_char(c: char) -> bool {
    ('0' <= c && c <= '9') || ('a' <= c && c <= 'z') || c == '-'
}

/// A well-shaped slug: slug characters only, no leading, trailing or
/// doubled `-`.
pub open spec fn is_slug(r: Seq<char>) -> bool {
    &&& forall|i: int| 0 <= i < r.len() ==> is_slug_char(#[trigger] r[i])
    &&& r.len() > 0 ==> r[0] != '-' && r.last() != '-'
    &&& forall|i: int| 0 <= i < r.len() - 1 ==> !(#[trigger] r[i] == '-' && r[i + 1] == '-')
}

proof fn lemma_lower_is_slug_char(c: char)
    requires
        is_ascii_alnum(c),
    ensures
        is_slug_char(ascii_lower(c)),
        ascii_lower(c) != '-',
{
}

/// The raw slug holds slug characters only, never starts with `-` and
/// never holds two `-` in a row.
proof fn lemma_slug_raw_shape(s: Seq<char>)
    ensures
        forall|i: int| 0 <= i < slug_raw(s).len() ==> is_slug_char(#[trigger] slug_raw(s)[i]),
        slug_raw(s).len() > 0 ==> slug_raw(s)[0] != '-',
        forall|i: int|
            0 <= i < slug_raw(s).len() - 1 ==> !(#[trigger] slug_raw(s)[i] == '-' && slug_raw(
                s,
            )[i + 1] == '-'),
    decreases s.len(),
{
    if s.len() > 0 {
        lemma_slug_raw_shape(s.drop_last());
        let c = s.last();
        if is_ascii_alnum(c) {
            lemma_lower_is_slug_char(c);
        }
    }
}

/// The slug of a slugged string is itself: slugging is idempotent.
pub proof fn lemma_slug_idempotent(s: Seq<char>)
    ensures
        slug_spec(slug_spec(s)) == slug_spec(s),
{
    let r = slug_spec(s);
    lemma_slug_raw_shape(s);
    lemma_slug_of_slug(r);
}

/// On a string shaped like a raw slug (slug characters, no leading or
/// doubled `-`), the raw slug is the identity.
proof fn lemma_slug_of_slug(r: Seq<char>)
    requires
        forall|i: int| 0 <= i < r.len() ==> is_slug_char(#[trigger] r[i]),
        r.len() > 0 ==> r[0] != '-',
        forall|i: int| 0 <= i < r.len() - 1 ==> !(#[trigger] r[i] == '-' && r[i + 1] == '-'),
    ensures
        slug_raw(r) == r,
    decreases r.len(),
{
    if r.len() > 0 {
        let p = r.drop_last();
        assert forall|i: int| 0 <= i < p.len() - 1 implies !(#[trigger] p[i] == '-' && p[i + 1] == '-') by {
            assert(p[i] == r[i] && p[i + 1] == r[i + 1]);
        }
        assert forall|i: int| 0 <= i < p.len() implies is_slug_char(#[trigger] p[i]) by {
            assert(p[i] == r[i]);
        }
        if p.len() > 0 {
            assert(p[0] == r[0]);
        }
        lemma_slug_of_slug(p);
        assert(r =~= p.push(r.last()));
        let c = r.last();
        if c == '-' {
            if p.len() > 0 {
                assert(p.last() == r[r.len() - 2]);
                assert(!(r[r.len() - 2] == '-' && r[r.len() - 2 + 1] == '-'));
            }
        } else {
            assert(is_ascii_alnum(c) && ascii_lower(c) == c);
        }
    }
}

/// The maximal non-empty runs of ASCII alphanumerics of `s`, in order, each
/// lowercased: a run grows while alphanumerics follow one another, and a
/// new one starts at an alphanumeric after anything else.
pub open spec fn alnum_runs(s: Seq<char>) -> Seq<Seq<char>>
    decreases s.len(),
{
    if s.len() == 0 {
        seq![]
    } else {
        let prev = alnum_runs(s.drop_last());
        let c = s.last();
        if !is_ascii_alnum(c) {
            prev
        } else if s.len() >= 2 && is_ascii_alnum(s[s.len() - 2]) {
            prev.update(prev.len() - 1, prev.last().push(ascii_lower(c)))
        } else {
            prev.push(seq![ascii_lower(c)])
        }
    }
}

/// Runs joined with `-` between them.
pub open spec fn join_dash(r: Seq<Seq<char>>) -> Seq<char>
    decreases r.len(),
{
    if r.len() == 0 {
        seq![]
    } else if r.len() == 1 {
        r[0]
    } else {
        join_dash(r.drop_last()) + seq!['-'] + r.last()
    }
}

/// A run: non-empty, lowercase ASCII letters and digits only.
pub open spec fn is_run(w: Seq<char>) -> bool {
    w.len() > 0 && forall|i: int| 0 <= i < w.len() ==> is_slug_char(#[trigger] w[i]) && w[i] != '-'
}

proof fn lemma_join_push(r: Seq<Seq<char>>, w: Seq<char>)
    ensures
        join_dash(r.push(w)) == if r.len() == 0 { w } else { join_dash(r) + seq!['-'] + w },
{
    assert(r.push(w).drop_last() =~= r);
}

proof fn lemma_join_extend(r: Seq<Seq<char>>, x: char)
    requires
        r.len() > 0,
    ensures
        join_dash(r.update(r.len() - 1, r.last().push(x))) == join_dash(r).push(x),
{
    let u = r.update(r.len() - 1, r.last().push(x));
    if r.len() == 1 {
        assert(u[0] == r[0].push(x));
    } else {
        assert(u.drop_last() =~= r.drop_last());
        assert(u.last() == r.last().push(x));
        assert(join_dash(r.drop_last()) + seq!['-'] + r.last().push(x) =~= (join_dash(r.drop_last()) + seq!['-']
            + r.last()).push(x));
    }
}

proof fn lemma_join_ends(r: Seq<Seq<char>>)
    requires
        r.len() > 0,
        forall|i: int| 0 <= i < r.len() ==> is_run(#[trigger] r[i]),
    ensures
        join_dash(r).len() > 0,
        join_dash(r).last() != '-',
{
    let l = r[r.len() - 1];
    assert(is_run(l));
    assert(l[l.len() - 1] != '-');
    if r.len() > 1 {
        let j = join_dash(r.drop_last()) + seq!['-'] + l;
        assert(j[j.len() - 1] == l[l.len() - 1]);
    }
}

/// The raw slug is the joined runs, with a `-` still pending where the
/// string ends in something other than an alphanumeric after a run.
proof fn lemma_slug_raw_runs(s: Seq<char>)
    ensures
        forall|i: int| 0 <= i < alnum_runs(s).len() ==> is_run(#[trigger] alnum_runs(s)[i]),
        slug_raw(s) == if alnum_runs(s).len() > 0 && !is_ascii_alnum(s.last()) {
            join_dash(alnum_runs(s)) + seq!['-']
        } else {
            join_dash(alnum_runs(s))
        },
        s.len() > 0 && is_ascii_alnum(s.last()) ==> alnum_runs(s).len() > 0,
    decreases s.len(),
{
    if s.len() > 0 {
        let p = s.drop_last();
        lemma_slug_raw_runs(p);
        let prev = alnum_runs(p);
        let c = s.last();
        let runs = alnum_runs(s);
        if !is_ascii_alnum(c) {
            if prev.len() > 0 {
                lemma_join_ends(prev);
                if p.len() > 0 && !is_ascii_alnum(p.last()) {
                    assert(slug_raw(p).last() == '-');
                } else {
                    assert(slug_raw(p) == join_dash(prev));
                }
            }
        } else {
            lemma_lower_is_slug_char(c);
            if s.len() >= 2 && is_ascii_alnum(s[s.len() - 2]) {
                assert(p.last() == s[s.len() - 2]);
                lemma_join_extend(prev, ascii_lower(c));
                assert forall|i: int| 0 <= i < runs.len() implies is_run(#[trigger] runs[i]) by {
                    if i < prev.len() - 1 {
                        assert(runs[i] == prev[i]);
                    } else {
                        let w = prev.last().push(ascii_lower(c));
                        assert(runs[i] == w);
                        assert(is_run(prev[prev.len() - 1]));
                        assert forall|k: int| 0 <= k < w.len() implies is_slug_char(#[trigger] w[k]) && w[k] != '-' by {
                            if k < w.len() - 1 {
                                assert(w[k] == prev.last()[k]);
                            }
                        }
                    }
                }
            } else {
                lemma_join_push(prev, seq![ascii_lower(c)]);
                if prev.len() > 0 {
                    assert(p.len() > 0 && !is_ascii_alnum(p.last()));
                    assert(join_dash(prev) + seq!['-'] + seq![ascii_lower(c)] =~= (join_dash(prev) + seq!['-']).push(
                        ascii_lower(c),
                    ));
                } else {
                    assert(slug_raw(p) =~= seq![]);
                    assert(seq![ascii_lower(c)] =~= Seq::<char>::empty().push(ascii_lower(c)));
                }
                assert forall|i: int| 0 <= i < runs.len() implies is_run(#[trigger] runs[i]) by {
                    if i < prev.len() {
                        assert(runs[i] == prev[i]);
                    } else {
                        assert(runs[i] == seq![ascii_lower(c)]);
                    }
                }
            }
        }
    }
}

/// The slug is the string's maximal runs of ASCII alphanumerics, each
/// lowercased, joined by `-`.
pub proof fn lemma_slug_is_joined_runs(s: Seq<char>)
    ensures
        slug_spec(s) == join_dash(alnum_runs(s)),
{
    lemma_slug_raw_runs(s);
    let runs = alnum_runs(s);
    if runs.len() > 0 {
        lemma_join_ends(runs);
        if !is_ascii_alnum(s.last()) {
            assert((join_dash(runs) + seq!['-']).drop_last() =~= join_dash(runs));
        }
    }
}

/// `char::to_ascii_uppercase`: `a-z` map to `A-Z`, every other char is kept.
pub open spec fn ascii_upper(c: char) -> char {
    if 'a' <= c && c <= 'z' {
        ((c as u32) - 32) as char
    } else {
        c
    }
}

/// `str::to_ascii_uppercase`.
pub open spec fn ascii_upper_all(s: Seq<char>) -> Seq<char> {
    Seq::new(s.len(), |i: int| ascii_upper(s[i]))
}

proof fn lemma_upper_char(c: char)
    ensures
        is_ascii_alnum(ascii_upper(c)) == is_ascii_alnum(c),
        is_ascii_alnum(c) ==> ascii_lower(ascii_upper(c)) == ascii_lower(c),
{
    if 'a' <= c && c <= 'z' {
        let u = ascii_upper(c);
        assert(u as u32 == (c as u32) - 32);
        assert('A' <= u && u <= 'Z');
        assert(ascii_lower(u) as u32 == (c as u32));
    }
}

/// Slugging ignores ASCII case: the slug of a string's ASCII upper-casing
/// is the slug of the string.
pub proof fn lemma_slug_ascii_case_insensitive(s: Seq<char>)
    ensures
        slug_spec(ascii_upper_all(s)) == slug_spec(s),
{
    lemma_slug_raw_upper(s);
}

proof fn lemma_slug_raw_upper(s: Seq<char>)
    ensures
        slug_raw(ascii_upper_all(s)) == slug_raw(s),
    decreases s.len(),
{
    if s.len() > 0 {
        let u = ascii_upper_all(s);
        lemma_slug_raw_upper(s.drop_last());
        assert(u.drop_last() =~= ascii_upper_all(s.drop_last()));
        assert(u.last() == ascii_upper(s.last()));
        lemma_upper_char(s.last());
    }
}

/// Convert an arbitrary string to a lowercase, dash-separated slug.
pub fn slugify(input: &str) -> (out: String)
    ensures
        out@ == slug_spec(input@),
        is_slug(out@),
{
    let cs = chars_of(input);
    let mut out: Vec<char> = Vec::new();
    let mut last_dash = true;
    let mut i: usize = 0;
    while i < cs.len()
        invariant
            0 <= i <= cs.len(),
            cs@ == input@,
            out@ == slug_raw(cs@.take(i as int)),
            last_dash == (out@.len() == 0 || out@.last() == '-'),
        decreases cs.len() - i,
    {
        let ch = cs[i];
        assert(cs@.take(i + 1).drop_last() =~= cs@.take(i as int));
        if is_ascii_alnum_exec(ch) {
            out.push(ascii_lower_exec(ch));
            last_dash = false;
        } else if !last_dash {
            out.push('-');
            last_dash = true;
        }
        i = i + 1;
    }
    assert(cs@.take(cs@.len() as int) =~= cs@);
    if out.len() > 0 && out[out.len() - 1] == '-' {
        out.pop();
    }
    proof {
        lemma_slug_raw_shape(input@);
        let r = slug_raw(input@);
        assert forall|i: int| 0 <= i < out@.len() - 1 implies !(#[trigger] out@[i] == '-' && out@[
            i + 1
        ] == '-') by {
            assert(out@[i] == r[i] && out@[i + 1] == r[i + 1]);
        }
        if out@.len() > 0 {
            assert(out@[0] == r[0]);
            if out@.len() < r.len() {
                assert(out@.last() == r[r.len() - 2]);
                assert(!(r[r.len() - 2] == '-' && r[r.len() - 1] == '-'));
            }
        }
    }
    string_from_chars(out.as_slice())
}

} // verus!
