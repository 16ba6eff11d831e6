//! Text normalizer: removes markup tags, decodes a fixed ordered set of
//! HTML entities, collapses doubled newlines, and removes a known
//! advertisement-injection snippet.

use vstd::prelude::*;

use crate::text::{
    chars_of, lemma_replace_all_no_occurrence, occurs, replace_all, replace_all_exec, string_of,
};

verus! {

/// Quote state while scanning for a tag's closing `>`: outside quotes,
/// inside a single-quoted span, or inside a double-quoted span.
pub open spec fn next_quote_state(q: int, c: char) -> int {
    if q == 0 {
        if c == '\'' {
            1
        } else if c == '"' {
            2
        } else {
            0
        }
    } else if q == 1 {
        if c == '\'' {
            0
        } else {
            1
        }
    } else {
        if c == '"' {
            0
        } else {
            2
        }
    }
}

/// Index of the first `>` in `s` that stands outside single- and
/// double-quoted spans, starting in quote state `q`, or `None` if there is
/// no such character.
pub open spec fn find_close(s: Seq<char>, q: int) -> Option<int>
    decreases s.len(),
{
    if s.len() == 0 {
        None
    } else if q == 0 && s[0] == '>' {
        Some(0)
    } else {
        match find_close(s.skip(1), next_quote_state(q, s[0])) {
            Some(k) => Some(k + 1),
            None => None,
        }
    }
}

/// Markup removal: a tag is any span starting at `<` and ending at the
/// first `>` that is not inside a single- or double-quoted substring; the
/// whole span is dropped. A `<` with no such closing `>` is kept as
/// ordinary text.
pub open spec fn strip_tags(s: Seq<char>) -> Seq<char>
    decreases s.len(),
{
    if s.len() == 0 {
        Seq::empty()
    } else if s[0] == '<' {
        match find_close(s.skip(1), 0) {
            Some(k) => if 0 <= k && k + 2 <= s.len() {
                strip_tags(s.skip(k + 2))
            } else {
                Seq::empty()
            },
            None => seq!['<'] + strip_tags(s.skip(1)),
        }
    } else {
        seq![s[0]] + strip_tags(s.skip(1))
    }
}

/// A found closing position lies inside the scanned sequence.
pub proof fn lemma_find_close_in_range(s: Seq<char>, q: int)
    ensures
        match find_close(s, q) {
            Some(k) => 0 <= k < s.len(),
            None => true,
        },
    decreases s.len(),
{
    if s.len() == 0 {
    } else if q == 0 && s[0] == '>' {
    } else {
        lemma_find_close_in_range(s.skip(1), next_quote_state(q, s[0]));
    }
}

/// Scan for the first unquoted `>` at or after `start`, beginning in quote
/// state zero, as `find_close` describes.
fn find_close_exec(s: &Vec<char>, start: usize) -> (r: Option<usize>)
    requires
        start <= s@.len(),
    ensures
        match r {
            Some(k) => start <= k < s@.len() && find_close(s@.skip(start as int), 0) == Some(
                k - start,
            ),
            None => find_close(s@.skip(start as int), 0) is None,
        },
{
    let mut j: usize = start;
    let mut q: u8 = 0;
    while j < s.len()
        invariant
            start <= j <= s@.len(),
            0 <= q <= 2,
            find_close(s@.skip(start as int), 0) == match find_close(s@.skip(j as int), q as int) {
                Some(k) => Some(k + j - start),
                None => None::<int>,
            },
        decreases s@.len() - j,
    {
        let c = s[j];
        proof {
            let t = s@.skip(j as int);
            assert(t[0] == c);
            assert(t.skip(1) =~= s@.skip(j + 1));
        }
        if q == 0 && c == '>' {
            return Some(j);
        }
        if q == 0 {
            if c == '\'' {
                q = 1;
            } else if c == '"' {
                q = 2;
            }
        } else if q == 1 {
            if c == '\'' {
                q = 0;
            }
        } else {
            if c == '"' {
                q = 0;
            }
        }
        j = j + 1;
    }
    proof {
        assert(s@.skip(j as int).len() == 0);
    }
    None
}

/// Remove all markup tags from `s` as `strip_tags` describes.
pub fn strip_tags_exec(s: &Vec<char>) -> (r: Vec<char>)
    ensures
        r@ == strip_tags(s@),
{
    let mut out: Vec<char> = Vec::new();
    let mut i: usize = 0;
    proof {
        assert(s@.skip(0) =~= s@);
    }
    while i < s.len()
        invariant
            i <= s@.len(),
            strip_tags(s@) == out@ + strip_tags(s@.skip(i as int)),
        decreases s@.len() - i,
    {
        let ghost t = s@.skip(i as int);
        proof {
            assert(t[0] == s@[i as int]);
            assert(t.skip(1) =~= s@.skip(i + 1));
        }
        if s[i] == '<' {
            match find_close_exec(s, i + 1) {
                Some(k) => {
                    proof {
                        let kk = k - (i + 1);
                        assert(find_close(t.skip(1), 0) == Some(kk));
                        assert(t.skip(kk + 2) =~= s@.skip(k + 1));
                        assert(strip_tags(t) == strip_tags(s@.skip(k + 1)));
                    }
                    i = k + 1;
                },
                None => {
                    out.push('<');
                    proof {
                        assert(out@ + strip_tags(s@.skip(i + 1)) =~= strip_tags(s@));
                    }
                    i = i + 1;
                },
            }
        } else {
            out.push(s[i]);
            proof {
                assert(out@ + strip_tags(s@.skip(i + 1)) =~= strip_tags(s@));
            }
            i = i + 1;
        }
    }
    proof {
        assert(s@.skip(s@.len() as int).len() == 0);
        assert(out@ =~= strip_tags(s@));
    }
    out
}

/// The ordered entity substitutions: later replacements must not re-match
/// text produced by earlier ones, so the order is part of the contract.
pub open spec fn decode_entities(s: Seq<char>) -> Seq<char> {
    let t1 = replace_all(s, "&#039;"@, "'"@);
    let t2 = replace_all(t1, "&#8216;"@, "'"@);
    let t3 = replace_all(t2, "&#8217;"@, "'"@);
    let t4 = replace_all(t3, "&#46;"@, "."@);
    let t5 = replace_all(t4, "&amp;"@, "&"@);
    let t6 = replace_all(t5, "&quot;"@, "\""@);
    replace_all(t6, "&#8220;"@, "\""@)
}

/// The advertisement-injection snippet removed by the normalizer.
pub open spec fn ad_snippet() -> Seq<char> {
    "(adsbygoogle = window.adsbygoogle || []).push({});"@
}

/// Full normalization of one text: markup removal, ordered entity
/// decoding, doubled-newline collapse, and ad-snippet removal.
pub open spec fn normalize_spec(s: Seq<char>) -> Seq<char> {
    let t = decode_entities(strip_tags(s));
    replace_all(replace_all(t, "\n\n"@, "\n"@), ad_snippet(), Seq::empty())
}

/// Normalize the characters of one text field.
pub fn normalize_chars(s: &Vec<char>) -> (r: Vec<char>)
    ensures
        r@ == normalize_spec(s@),
{
    proof {
        reveal_strlit("&#039;");
        reveal_strlit("&#8216;");
        reveal_strlit("&#8217;");
        reveal_strlit("&#46;");
        reveal_strlit("&amp;");
        reveal_strlit("&quot;");
        reveal_strlit("&#8220;");
        reveal_strlit("\n\n");
        reveal_strlit("(adsbygoogle = window.adsbygoogle || []).push({});");
    }
    let stripped = strip_tags_exec(s);
    let t1 = replace_all_exec(&stripped, &chars_of("&#039;"), &chars_of("'"));
    let t2 = replace_all_exec(&t1, &chars_of("&#8216;"), &chars_of("'"));
    let t3 = replace_all_exec(&t2, &chars_of("&#8217;"), &chars_of("'"));
    let t4 = replace_all_exec(&t3, &chars_of("&#46;"), &chars_of("."));
    let t5 = replace_all_exec(&t4, &chars_of("&amp;"), &chars_of("&"));
    let t6 = replace_all_exec(&t5, &chars_of("&quot;"), &chars_of("\""));
    let t7 = replace_all_exec(&t6, &chars_of("&#8220;"), &chars_of("\""));
    let t8 = replace_all_exec(&t7, &chars_of("\n\n"), &chars_of("\n"));
    let empty: Vec<char> = Vec::new();
    let t9 = replace_all_exec(
        &t8,
        &chars_of("(adsbygoogle = window.adsbygoogle || []).push({});"),
        &empty,
    );
    t9
}

/// Normalize an optional text field: absent stays absent, present text is
/// normalized as `normalize_spec` describes.
pub fn normalize(text: Option<String>) -> (r: Option<String>)
    ensures
        match text {
            None => r is None,
            Some(t) => r is Some && r->0@ == normalize_spec(t@),
        },
{
    match text {
        None => None,
        Some(t) => {
            let cs = chars_of(t.as_str());
            let out = normalize_chars(&cs);
            Some(string_of(&out))
        },
    }
}

/// Text on which the normalizer has nothing to do: no markup opener, no
/// entity code, no doubled newline, no ad snippet.
pub open spec fn is_clean(s: Seq<char>) -> bool {
    &&& forall|i: int| 0 <= i < s.len() ==> s[i] != '<'
    &&& !occurs(s, "&#039;"@)
    &&& !occurs(s, "&#8216;"@)
    &&& !occurs(s, "&#8217;"@)
    &&& !occurs(s, "&#46;"@)
    &&& !occurs(s, "&amp;"@)
    &&& !occurs(s, "&quot;"@)
    &&& !occurs(s, "&#8220;"@)
    &&& !occurs(s, "\n\n"@)
    &&& !occurs(s, ad_snippet())
}

/// Tag stripping leaves text without `<` unchanged.
pub proof fn lemma_strip_tags_no_tags(s: Seq<char>)
    requires
        forall|i: int| 0 <= i < s.len() ==> s[i] != '<',
    ensures
        strip_tags(s) == s,
    decreases s.len(),
{
    if s.len() == 0 {
        assert(strip_tags(s) =~= s);
    } else {
        assert(forall|i: int| 0 <= i < s.skip(1).len() ==> s.skip(1)[i] != '<');
        lemma_strip_tags_no_tags(s.skip(1));
        assert(seq![s[0]] + s.skip(1) =~= s);
    }
}

/// The normalizer is the identity on already-clean text; applied twice to
/// such text it therefore agrees with a single application.
pub proof fn lemma_normalize_identity_on_clean(s: Seq<char>)
    requires
        is_clean(s),
    ensures
        normalize_spec(s) == s,
        normalize_spec(normalize_spec(s)) == normalize_spec(s),
{
    reveal_strlit("&#039;");
    reveal_strlit("&#8216;");
    reveal_strlit("&#8217;");
    reveal_strlit("&#46;");
    reveal_strlit("&amp;");
    reveal_strlit("&quot;");
    reveal_strlit("&#8220;");
    reveal_strlit("\n\n");
    reveal_strlit("(adsbygoogle = window.adsbygoogle || []).push({});");
    lemma_strip_tags_no_tags(s);
    lemma_replace_all_no_occurrence(s, "&#039;"@, "'"@);
    lemma_replace_all_no_occurrence(s, "&#8216;"@, "'"@);
    lemma_replace_all_no_occurrence(s, "&#8217;"@, "'"@);
    lemma_replace_all_no_occurrence(s, "&#46;"@, "."@);
    lemma_replace_all_no_occurrence(s, "&amp;"@, "&"@);
    lemma_replace_all_no_occurrence(s, "&quot;"@, "\""@);
    lemma_replace_all_no_occurrence(s, "&#8220;"@, "\""@);
    lemma_replace_all_no_occurrence(s, "\n\n"@, "\n"@);
    lemma_replace_all_no_occurrence(s, ad_snippet(), Seq::empty());
}

} // verus!
