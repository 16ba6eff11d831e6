//! Deduplicator: drops incoming records whose title is empty or whose
//! link is already present in the reference set of stored links, keeping
//! the survivors in input order. Duplicate links within one incoming
//! batch are not caught: the check is against the reference set only.

use vstd::prelude::*;

use crate::model::{rec_views, str_views, NormalizedFeedRecord, RecordView};

verus! {

/// `l` is one of the reference links.
pub open spec fn in_links(links: Seq<Seq<char>>, l: Seq<char>) -> bool {
    exists|i: int| 0 <= i < links.len() && links[i] == l
}

/// A record survives deduplication: non-empty title, and its link, if
/// present, is not in the reference set.
pub open spec fn keep_record(r: RecordView, links: Seq<Seq<char>>) -> bool {
    &&& r.title.len() > 0
    &&& match r.link {
        Some(l) => !in_links(links, l),
        None => true,
    }
}

/// The subsequence of `input` whose records survive deduplication, in
/// input order.
pub open spec fn dedupe_spec(input: Seq<RecordView>, links: Seq<Seq<char>>) -> Seq<RecordView>
    decreases input.len(),
{
    if input.len() == 0 {
        Seq::empty()
    } else if keep_record(input[0], links) {
        seq![input[0]] + dedupe_spec(input.drop_first(), links)
    } else {
        dedupe_spec(input.drop_first(), links)
    }
}

/// `l` equals one of the reference links.
fn link_exists(links: &Vec<String>, l: &String) -> (r: bool)
    ensures
        r == in_links(str_views(links@), l@),
{
    let mut i: usize = 0;
    while i < links.len()
        invariant
            i <= links@.len(),
            forall|t: int| 0 <= t < i ==> str_views(links@)[t] != l@,
        decreases links@.len() - i,
    {
        if links[i].eq(l) {
            proof {
                assert(str_views(links@)[i as int] == l@);
            }
            return true;
        }
        i = i + 1;
    }
    false
}

/// Does this record survive deduplication against the reference links?
fn keep_record_exec(r: &NormalizedFeedRecord, links: &Vec<String>) -> (b: bool)
    ensures
        b == keep_record(r@, str_views(links@)),
{
    if r.title.as_str().is_empty() {
        return false;
    }
    match &r.link {
        Some(l) => !link_exists(links, l),
        None => true,
    }
}

/// Drop incoming records with an empty title or a link already in the
/// reference set; survivors keep their input order.
pub fn dedupe(incoming: Vec<NormalizedFeedRecord>, existing: &Vec<String>) -> (r: Vec<
    NormalizedFeedRecord,
>)
    ensures
        rec_views(r@) == dedupe_spec(rec_views(incoming@), str_views(existing@)),
{
    let ghost orig = rec_views(incoming@);
    let ghost ls = str_views(existing@);
    let mut rest = incoming;
    let mut out: Vec<NormalizedFeedRecord> = Vec::new();
    proof {
        assert(rec_views(rest@) =~= orig);
        assert(rec_views(out@) =~= Seq::<RecordView>::empty());
    }
    while rest.len() > 0
        invariant
            dedupe_spec(orig, ls) == rec_views(out@) + dedupe_spec(rec_views(rest@), ls),
            ls == str_views(existing@),
        decreases rest@.len(),
    {
        let ghost pre = rec_views(rest@);
        let rec = rest.remove(0);
        proof {
            assert(pre[0] == rec@);
            assert(pre.drop_first() =~= rec_views(rest@));
        }
        if keep_record_exec(&rec, existing) {
            out.push(rec);
            proof {
                assert(rec_views(out@) =~= rec_views(out@.drop_last()) + seq![rec@]);
                assert((rec_views(out@.drop_last()) + seq![rec@]) + dedupe_spec(
                    rec_views(rest@),
                    ls,
                ) =~= rec_views(out@.drop_last()) + (seq![rec@] + dedupe_spec(
                    rec_views(rest@),
                    ls,
                )));
            }
        }
    }
    proof {
        assert(rec_views(rest@).len() == 0);
        assert(rec_views(out@) =~= dedupe_spec(orig, ls));
    }
    out
}

/// Deduplication never grows the input.
pub proof fn lemma_dedupe_len(input: Seq<RecordView>, links: Seq<Seq<char>>)
    ensures
        dedupe_spec(input, links).len() <= input.len(),
    decreases input.len(),
{
    if input.len() > 0 {
        lemma_dedupe_len(input.drop_first(), links);
    }
}

/// Every record that deduplication lets through has a non-empty title
/// and a link absent from the reference set: in particular, no record
/// with an empty title ever appears in the output.
pub proof fn lemma_dedupe_keeps_only_valid(input: Seq<RecordView>, links: Seq<Seq<char>>)
    ensures
        forall|j: int|
            0 <= j < dedupe_spec(input, links).len() ==> keep_record(
                #[trigger] dedupe_spec(input, links)[j],
                links,
            ),
    decreases input.len(),
{
    if input.len() > 0 {
        lemma_dedupe_keeps_only_valid(input.drop_first(), links);
        let out = dedupe_spec(input, links);
        let rest = dedupe_spec(input.drop_first(), links);
        assert forall|j: int| 0 <= j < out.len() implies keep_record(out[j], links) by {
            if keep_record(input[0], links) {
                if j == 0 {
                    assert(out[0] == input[0]);
                } else {
                    assert(out[j] == rest[j - 1]);
                }
            } else {
                assert(out[j] == rest[j]);
            }
        }
    }
}

/// Every input record with a non-empty title and a link absent from the
/// reference set appears in the output.
pub proof fn lemma_dedupe_includes_fresh(input: Seq<RecordView>, links: Seq<Seq<char>>, i: int)
    requires
        0 <= i < input.len(),
        keep_record(input[i], links),
    ensures
        dedupe_spec(input, links).contains(input[i]),
    decreases input.len(),
{
    if i == 0 {
        assert(dedupe_spec(input, links)[0] == input[0]);
    } else {
        lemma_dedupe_includes_fresh(input.drop_first(), links, i - 1);
        let rest = dedupe_spec(input.drop_first(), links);
        let k = choose|k: int| 0 <= k < rest.len() && rest[k] == input[i];
        if keep_record(input[0], links) {
            assert(dedupe_spec(input, links)[k + 1] == input[i]);
        } else {
            assert(dedupe_spec(input, links)[k] == input[i]);
        }
    }
}

/// Each output record comes from some input position.
pub proof fn lemma_dedupe_element_source(input: Seq<RecordView>, links: Seq<Seq<char>>, j: int)
    requires
        0 <= j < dedupe_spec(input, links).len(),
    ensures
        exists|i: int| 0 <= i < input.len() && input[i] == dedupe_spec(input, links)[j],
    decreases input.len(),
{
    if keep_record(input[0], links) {
        if j == 0 {
            assert(input[0] == dedupe_spec(input, links)[0]);
        } else {
            lemma_dedupe_element_source(input.drop_first(), links, j - 1);
            let i = choose|i: int|
                0 <= i < input.drop_first().len() && input.drop_first()[i] == dedupe_spec(
                    input.drop_first(),
                    links,
                )[j - 1];
            assert(input[i + 1] == dedupe_spec(input, links)[j]);
        }
    } else {
        lemma_dedupe_element_source(input.drop_first(), links, j);
        let i = choose|i: int|
            0 <= i < input.drop_first().len() && input.drop_first()[i] == dedupe_spec(
                input.drop_first(),
                links,
            )[j];
        assert(input[i + 1] == dedupe_spec(input, links)[j]);
    }
}

/// Surviving records keep their relative order: any two output positions
/// come from two input positions in the same order.
pub proof fn lemma_dedupe_preserves_order(
    input: Seq<RecordView>,
    links: Seq<Seq<char>>,
    j1: int,
    j2: int,
)
    requires
        0 <= j1 < j2 < dedupe_spec(input, links).len(),
    ensures
        exists|i1: int, i2: int|
            0 <= i1 < i2 < input.len() && input[i1] == dedupe_spec(input, links)[j1] && input[i2]
                == dedupe_spec(input, links)[j2],
    decreases input.len(),
{
    let out = dedupe_spec(input, links);
    if keep_record(input[0], links) {
        if j1 == 0 {
            lemma_dedupe_element_source(input.drop_first(), links, j2 - 1);
            let i = choose|i: int|
                0 <= i < input.drop_first().len() && input.drop_first()[i] == dedupe_spec(
                    input.drop_first(),
                    links,
                )[j2 - 1];
            assert(input[0] == out[0] && input[i + 1] == out[j2] && 0 < i + 1 < input.len());
        } else {
            lemma_dedupe_preserves_order(input.drop_first(), links, j1 - 1, j2 - 1);
            let (i1, i2) = choose|i1: int, i2: int|
                0 <= i1 < i2 < input.drop_first().len() && input.drop_first()[i1] == dedupe_spec(
                    input.drop_first(),
                    links,
                )[j1 - 1] && input.drop_first()[i2] == dedupe_spec(input.drop_first(), links)[j2
                - 1];
            assert(input[i1 + 1] == out[j1] && input[i2 + 1] == out[j2]);
        }
    } else {
        lemma_dedupe_preserves_order(input.drop_first(), links, j1, j2);
        let (i1, i2) = choose|i1: int, i2: int|
            0 <= i1 < i2 < input.drop_first().len() && input.drop_first()[i1] == dedupe_spec(
                input.drop_first(),
                links,
            )[j1] && input.drop_first()[i2] == dedupe_spec(input.drop_first(), links)[j2];
        assert(input[i1 + 1] == out[j1] && input[i2 + 1] == out[j2]);
    }
}

} // verus!
