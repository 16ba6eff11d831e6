//! Character-sequence primitives shared by the text normalizer and the
//! query service: pattern matching at a position, ordered literal
//! replacement, and substring occurrence.

use vstd::prelude::*;

verus! {

/// `pat` occurs in `s` starting at index `k`.
pub open spec fn occurs_at(s: Seq<char>, pat: Seq<char>, k: int) -> bool {
    0 <= k && k + pat.len() <= s.len() && s.subrange(k, k + pat.len() as int) == pat
}

/// `pat` occurs somewhere in `s`.
pub open spec fn occurs(s: Seq<char>, pat: Seq<char>) -> bool {
    exists|k: int| occurs_at(s, pat, k)
}

/// Left-to-right, non-overlapping replacement of every occurrence of `pat`
/// by `rep`: at each position, if `pat` starts there the replacement is
/// emitted and scanning resumes after the matched span, otherwise the
/// character is kept. Text already emitted is never rescanned, so later
/// occurrences produced by `rep` itself are not replaced.
pub open spec fn replace_all(s: Seq<char>, pat: Seq<char>, rep: Seq<char>) -> Seq<char>
    decreases s.len(),
{
    if pat.len() == 0 || s.len() < pat.len() {
        s
    } else if s.subrange(0, pat.len() as int) == pat {
        rep + replace_all(s.skip(pat.len() as int), pat, rep)
    } else {
        seq![s[0]] + replace_all(s.skip(1), pat, rep)
    }
}

/// Collect the characters of a string slice into a vector.
pub fn chars_of(s: &str) -> (r: Vec<char>)
    ensures
        r@ == s@,
{
    let n = s.unicode_len();
    let mut r: Vec<char> = Vec::new();
    let mut i: usize = 0;
    while i < n
        invariant
            n == s@.len(),
            i <= n,
            r@ == s@.take(i as int),
        decreases n - i,
    {
        r.push(s.get_char(i));
        proof {
            assert(r@ =~= s@.take(i + 1 as int));
        }
        i = i + 1;
    }
    proof {
        assert(s@.take(n as int) =~= s@);
    }
    r
}

/// Relies on `String`'s `FromIterator` impl: collecting characters yields the
/// string whose characters are exactly those of the iterator, in order.
#[verifier::external_body]
pub fn string_of(v: &Vec<char>) -> (r: String)
    ensures
        r@ == v@,
{
    v.iter().collect()
}

/// Append all characters of `src` to `out`.
pub fn push_all(out: &mut Vec<char>, src: &Vec<char>)
    ensures
        final(out)@ == old(out)@ + src@,
{
    let mut j: usize = 0;
    while j < src.len()
        invariant
            j <= src@.len(),
            out@ == old(out)@ + src@.take(j as int),
        decreases src@.len() - j,
    {
        out.push(src[j]);
        proof {
            assert(old(out)@ + src@.take(j + 1 as int) =~= (old(out)@ + src@.take(j as int)).push(
                src@[j as int],
            ));
        }
        j = j + 1;
    }
    proof {
        assert(src@.take(src@.len() as int) =~= src@);
    }
}

/// `pat` occurs in `s` starting at index `i`.
pub fn matches_at(s: &Vec<char>, i: usize, pat: &Vec<char>) -> (r: bool)
    requires
        i <= s@.len(),
    ensures
        r == occurs_at(s@, pat@, i as int),
{
    if pat.len() > s.len() - i {
        proof {
            assert(!occurs_at(s@, pat@, i as int));
        }
        return false;
    }
    let mut j: usize = 0;
    while j < pat.len()
        invariant
            i + pat@.len() <= s@.len(),
            s@.len() <= usize::MAX,
            j <= pat@.len(),
            forall|t: int| 0 <= t < j ==> s@[i + t] == pat@[t],
        decreases pat@.len() - j,
    {
        if s[i + j] != pat[j] {
            proof {
                assert(s@.subrange(i as int, i + pat@.len()) != pat@) by {
                    assert(s@.subrange(i as int, i + pat@.len())[j as int] != pat@[j as int]);
                }
            }
            return false;
        }
        j = j + 1;
    }
    proof {
        assert(s@.subrange(i as int, i + pat@.len()) =~= pat@);
    }
    true
}

/// Replace every occurrence of `pat` in `s` by `rep`, scanning left to right
/// without rescanning emitted text.
pub fn replace_all_exec(s: &Vec<char>, pat: &Vec<char>, rep: &Vec<char>) -> (r: Vec<char>)
    requires
        pat@.len() >= 1,
    ensures
        r@ == replace_all(s@, pat@, rep@),
{
    let mut out: Vec<char> = Vec::new();
    let mut i: usize = 0;
    proof {
        assert(s@.skip(0) =~= s@);
        assert(Seq::<char>::empty() + replace_all(s@, pat@, rep@) =~= replace_all(
            s@,
            pat@,
            rep@,
        ));
    }
    while i < s.len()
        invariant
            pat@.len() >= 1,
            i <= s@.len(),
            replace_all(s@, pat@, rep@) == out@ + replace_all(s@.skip(i as int), pat@, rep@),
        decreases s@.len() - i,
    {
        let ghost t = s@.skip(i as int);
        if matches_at(s, i, pat) {
            proof {
                assert(t.subrange(0, pat@.len() as int) =~= s@.subrange(
                    i as int,
                    i + pat@.len(),
                ));
                assert(t.skip(pat@.len() as int) =~= s@.skip(i + pat@.len()));
                assert(replace_all(t, pat@, rep@) == rep@ + replace_all(
                    s@.skip(i + pat@.len()),
                    pat@,
                    rep@,
                ));
            }
            push_all(&mut out, rep);
            proof {
                assert(out@ + replace_all(s@.skip(i + pat@.len()), pat@, rep@) =~= replace_all(
                    s@,
                    pat@,
                    rep@,
                ));
            }
            i = i + pat.len();
        } else {
            proof {
                assert(t.len() >= 1);
                if t.len() >= pat@.len() {
                    assert(t.subrange(0, pat@.len() as int) =~= s@.subrange(
                        i as int,
                        i + pat@.len(),
                    ));
                }
                assert(t.skip(1) =~= s@.skip(i + 1));
                assert(replace_all(t, pat@, rep@) == seq![t[0]] + replace_all(
                    s@.skip(i + 1),
                    pat@,
                    rep@,
                ));
                assert(t[0] == s@[i as int]);
            }
            out.push(s[i]);
            proof {
                assert(out@ + replace_all(s@.skip(i + 1), pat@, rep@) =~= replace_all(
                    s@,
                    pat@,
                    rep@,
                ));
            }
            i = i + 1;
        }
    }
    proof {
        assert(s@.skip(s@.len() as int) =~= Seq::<char>::empty());
        assert(out@ =~= replace_all(s@, pat@, rep@));
    }
    out
}

/// Test whether `pat` occurs anywhere in `s`.
pub fn contains_pat(s: &Vec<char>, pat: &Vec<char>) -> (r: bool)
    ensures
        r == occurs(s@, pat@),
{
    if pat.len() == 0 {
        proof {
            assert(s@.subrange(0, 0) =~= pat@);
            assert(occurs_at(s@, pat@, 0));
        }
        return true;
    }
    if pat.len() > s.len() {
        proof {
            assert(forall|k: int| !occurs_at(s@, pat@, k));
        }
        return false;
    }
    let mut k: usize = 0;
    while k <= s.len() - pat.len()
        invariant
            1 <= pat@.len() <= s@.len(),
            k <= s@.len() - pat@.len() + 1,
            forall|t: int| 0 <= t < k ==> !occurs_at(s@, pat@, t),
        decreases s@.len() - pat@.len() + 1 - k,
    {
        if matches_at(s, k, pat) {
            return true;
        }
        k = k + 1;
    }
    proof {
        assert(forall|t: int| !occurs_at(s@, pat@, t));
    }
    false
}

/// Index of the first newline in `s`.
pub open spec fn find_nl(s: Seq<char>) -> Option<int>
    decreases s.len(),
{
    if s.len() == 0 {
        None
    } else if s[0] == '\n' {
        Some(0)
    } else {
        match find_nl(s.skip(1)) {
            Some(k) => Some(k + 1),
            None => None,
        }
    }
}

/// A line with a trailing carriage return dropped.
pub open spec fn strip_cr(l: Seq<char>) -> Seq<char> {
    if l.len() > 0 && l[l.len() - 1] == '\r' {
        l.drop_last()
    } else {
        l
    }
}

/// The lines of `s`: pieces separated by `'\n'`, each with a carriage
/// return before the separator dropped; a trailing separator yields no
/// final empty line.
pub open spec fn lines_spec(s: Seq<char>) -> Seq<Seq<char>>
    decreases s.len(),
{
    if s.len() == 0 {
        Seq::empty()
    } else {
        match find_nl(s) {
            Some(k) => if 0 <= k < s.len() {
                seq![strip_cr(s.take(k))] + lines_spec(s.skip(k + 1))
            } else {
                Seq::empty()
            },
            None => seq![s],
        }
    }
}

/// Position of the first newline at or after `start`.
fn find_nl_exec(s: &Vec<char>, start: usize) -> (r: Option<usize>)
    requires
        start <= s@.len(),
    ensures
        match r {
            Some(k) => start <= k < s@.len() && find_nl(s@.skip(start as int)) == Some(
                k - start,
            ),
            None => find_nl(s@.skip(start as int)) is None,
        },
{
    let mut j: usize = start;
    while j < s.len()
        invariant
            start <= j <= s@.len(),
            find_nl(s@.skip(start as int)) == match find_nl(s@.skip(j as int)) {
                Some(k) => Some(k + j - start),
                None => None::<int>,
            },
        decreases s@.len() - j,
    {
        proof {
            let t = s@.skip(j as int);
            assert(t[0] == s@[j as int]);
            assert(t.skip(1) =~= s@.skip(j + 1));
        }
        if s[j] == '\n' {
            return Some(j);
        }
        j = j + 1;
    }
    proof {
        assert(s@.skip(j as int).len() == 0);
    }
    None
}

/// Copy of the characters from `from` (inclusive) to `to` (exclusive).
fn copy_range(s: &Vec<char>, from: usize, to: usize) -> (r: Vec<char>)
    requires
        from <= to <= s@.len(),
    ensures
        r@ == s@.subrange(from as int, to as int),
{
    let mut line: Vec<char> = Vec::new();
    let mut j: usize = from;
    while j < to
        invariant
            from <= j <= to <= s@.len(),
            line@ == s@.subrange(from as int, j as int),
        decreases to - j,
    {
        line.push(s[j]);
        proof {
            assert(line@ =~= s@.subrange(from as int, j + 1 as int));
        }
        j = j + 1;
    }
    line
}

/// Split a text into its lines, as `lines_spec` describes: separated at
/// newlines, a carriage return before a separator dropped, no empty
/// final line for a trailing separator.
pub fn split_lines(s: &str) -> (r: Vec<String>)
    ensures
        r@.map_values(|l: String| l@) == lines_spec(s@),
{
    let cs = chars_of(s);
    let mut out: Vec<String> = Vec::new();
    let mut i: usize = 0;
    proof {
        assert(cs@.skip(0) =~= cs@);
        assert(out@.map_values(|l: String| l@) =~= Seq::<Seq<char>>::empty());
    }
    while i < cs.len()
        invariant
            i <= cs@.len(),
            cs@ == s@,
            lines_spec(s@) == out@.map_values(|l: String| l@) + lines_spec(cs@.skip(i as int)),
        decreases cs@.len() - i,
    {
        let ghost t = cs@.skip(i as int);
        let ghost prev = out@;
        match find_nl_exec(&cs, i) {
            Some(k) => {
                let end: usize = if k > i && cs[k - 1] == '\r' {
                    k - 1
                } else {
                    k
                };
                let line = copy_range(&cs, i, end);
                proof {
                    assert(find_nl(t) == Some(k - i));
                    assert(t.take(k - i) =~= cs@.subrange(i as int, k as int));
                    assert(strip_cr(t.take(k - i)) =~= line@);
                    assert(t.skip(k - i + 1) =~= cs@.skip(k + 1));
                    assert(lines_spec(t) == seq![strip_cr(t.take(k - i))] + lines_spec(
                        cs@.skip(k + 1),
                    ));
                }
                out.push(string_of(&line));
                proof {
                    assert(out@.drop_last() =~= prev);
                    assert(out@.map_values(|l: String| l@) =~= prev.map_values(|l: String| l@)
                        + seq![line@]);
                    assert(out@.map_values(|l: String| l@) + lines_spec(cs@.skip(k + 1))
                        =~= lines_spec(s@));
                }
                i = k + 1;
            },
            None => {
                let line = copy_range(&cs, i, cs.len());
                proof {
                    assert(lines_spec(t) == seq![t]);
                    assert(t =~= line@);
                }
                out.push(string_of(&line));
                proof {
                    assert(out@.drop_last() =~= prev);
                    assert(out@.map_values(|l: String| l@) =~= prev.map_values(|l: String| l@)
                        + seq![line@]);
                    assert(cs@.skip(cs@.len() as int).len() == 0);
                    assert(out@.map_values(|l: String| l@) + lines_spec(
                        cs@.skip(cs@.len() as int),
                    ) =~= lines_spec(s@));
                }
                i = cs.len();
            },
        }
    }
    proof {
        assert(cs@.skip(cs@.len() as int).len() == 0);
        assert(out@.map_values(|l: String| l@) =~= lines_spec(s@));
    }
    out
}

/// If `pat` never occurs in `s`, replacement leaves `s` unchanged.
pub proof fn lemma_replace_all_no_occurrence(s: Seq<char>, pat: Seq<char>, rep: Seq<char>)
    requires
        pat.len() >= 1,
        !occurs(s, pat),
    ensures
        replace_all(s, pat, rep) == s,
    decreases s.len(),
{
    if s.len() < pat.len() {
    } else if s.subrange(0, pat.len() as int) == pat {
        assert(occurs_at(s, pat, 0));
    } else {
        assert(!occurs(s.skip(1), pat)) by {
            if occurs(s.skip(1), pat) {
                let k = choose|k: int| occurs_at(s.skip(1), pat, k);
                assert(s.subrange(k + 1, k + 1 + pat.len()) =~= s.skip(1).subrange(
                    k,
                    k + pat.len() as int,
                ));
                assert(occurs_at(s, pat, k + 1));
            }
        }
        lemma_replace_all_no_occurrence(s.skip(1), pat, rep);
        assert(seq![s[0]] + s.skip(1) =~= s);
    }
}

} // verus!
