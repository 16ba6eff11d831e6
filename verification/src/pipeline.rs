//! The ingestion pipeline: normalize each raw entry (text cleaning and
//! date resolution), deduplicate against the links already stored, and
//! persist the survivors in bounded batches.

use vstd::prelude::*;

use crate::batch::{write_batches, written_prefix, WriteOutcome};
use crate::dates::{resolve_date, resolve_spec, DateError, Timestamp};
use crate::dedupe::{dedupe, dedupe_spec, lemma_dedupe_element_source, lemma_dedupe_len};
use crate::model::{
    entry_views, item_views, rec_views, NormalizedFeedRecord, RawEntryView, RawFeedEntry,
    RecordView,
};
use crate::normalize::{normalize, normalize_spec};
use crate::store::{links_seq, stored_views, FeedStore};

verus! {

/// Normalization of one optional text field.
pub open spec fn opt_norm(o: Option<Seq<char>>) -> Option<Seq<char>> {
    match o {
        Some(s) => Some(normalize_spec(s)),
        None => None,
    }
}

/// The record a raw entry normalizes to, given its resolved timestamp:
/// title and link kept, description and content cleaned, author kept,
/// image passed through unchanged.
pub open spec fn record_of(e: RawEntryView, ts: Option<Timestamp>) -> RecordView {
    RecordView {
        title: e.title,
        link: Some(e.link),
        description: opt_norm(e.description),
        content: opt_norm(e.content),
        author: Some(e.author),
        image: e.images,
        published: ts,
    }
}

/// Normalization of one entry: `None` exactly when the entry carries a
/// published string that matches neither recognized date format.
pub open spec fn normalize_entry_spec(e: RawEntryView) -> Option<RecordView> {
    match e.published {
        Some(p) => match resolve_spec(p) {
            Some(ts) => Some(record_of(e, Some(ts))),
            None => None,
        },
        None => Some(record_of(e, None)),
    }
}

/// Normalization of a whole entry list, `None` as soon as one entry
/// fails date resolution.
pub open spec fn normalize_all(es: Seq<RawEntryView>) -> Option<Seq<RecordView>>
    decreases es.len(),
{
    if es.len() == 0 {
        Some(Seq::empty())
    } else {
        match (normalize_entry_spec(es[0]), normalize_all(es.drop_first())) {
            (Some(r), Some(rest)) => Some(seq![r] + rest),
            _ => None,
        }
    }
}

/// Normalize one raw entry, as `normalize_entry_spec` describes; the
/// result is well formed.
pub fn normalize_entry(e: RawFeedEntry) -> (r: Result<NormalizedFeedRecord, DateError>)
    ensures
        match r {
            Ok(rec) => normalize_entry_spec(e@) == Some(rec@) && rec@.wf(),
            Err(_) => normalize_entry_spec(e@) is None,
        },
{
    let published: Option<Timestamp> = match &e.published {
        Some(p) => {
            match resolve_date(p.as_str()) {
                Ok(ts) => Some(ts),
                Err(er) => {
                    return Err(er);
                },
            }
        },
        None => None,
    };
    Ok(
        NormalizedFeedRecord {
            title: e.title,
            link: Some(e.link),
            description: normalize(e.description),
            content: normalize(e.content),
            author: Some(e.author),
            image: e.images,
            published,
        },
    )
}

/// One ingestion run against the store: normalize the entries, drop the
/// ones whose link is already stored or whose title is empty, and write
/// the rest in eight bounded batches. An unresolvable date aborts the
/// run with the store untouched; otherwise the outcome says whether any
/// record was scheduled for writing.
pub fn run_ingestion(store: &mut FeedStore, entries: Vec<RawFeedEntry>) -> (r: Result<
    WriteOutcome,
    DateError,
>)
    requires
        old(store).wf(),
        old(store).next_id + entries@.len() <= u64::MAX,
    ensures
        final(store).wf(),
        match r {
            Ok(outcome) => {
                &&& normalize_all(entry_views(entries@)) is Some
                &&& ({
                    let kept = dedupe_spec(
                        normalize_all(entry_views(entries@))->0,
                        links_seq(item_views(old(store).items@)),
                    );
                    &&& item_views(final(store).items@) == item_views(old(store).items@)
                        + stored_views(written_prefix(kept), old(store).next_id as int)
                    &&& (outcome == WriteOutcome::NoNewRecords <==> kept.len() == 0)
                })
            },
            Err(_) => {
                &&& normalize_all(entry_views(entries@)) is None
                &&& *final(store) == *old(store)
            },
        },
{
    let ghost eviews = entry_views(entries@);
    let mut rest = entries;
    let mut records: Vec<NormalizedFeedRecord> = Vec::new();
    proof {
        assert(entry_views(rest@) =~= eviews.skip(0));
        assert(rec_views(records@) =~= Seq::<RecordView>::empty());
    }
    while rest.len() > 0
        invariant
            *store == *old(store),
            old(store).wf(),
            old(store).next_id + eviews.len() <= u64::MAX,
            eviews == entry_views(entries@),
            records@.len() + rest@.len() == eviews.len(),
            entry_views(rest@) == eviews.skip(records@.len() as int),
            forall|i: int| 0 <= i < records@.len() ==> (#[trigger] records@[i])@.wf(),
            normalize_all(eviews) == (if normalize_all(entry_views(rest@)) is Some {
                Some(rec_views(records@) + normalize_all(entry_views(rest@))->0)
            } else {
                None::<Seq<RecordView>>
            }),
        decreases rest@.len(),
    {
        let ghost k = records@.len() as int;
        let ghost prev = rest@;
        let e = rest.remove(0);
        proof {
            assert(e@ == entry_views(prev)[0]);
            assert(eviews.skip(k)[0] == e@);
            assert(entry_views(prev).drop_first() =~= entry_views(rest@));
            assert(eviews.skip(k).drop_first() =~= eviews.skip(k + 1));
            assert(entry_views(rest@) == eviews.skip(k + 1));
        }
        match normalize_entry(e) {
            Ok(rec) => {
                records.push(rec);
                proof {
                    assert(rec_views(records@) =~= rec_views(records@.drop_last()) + seq![rec@]);
                    if normalize_all(entry_views(rest@)) is Some {
                        assert((rec_views(records@.drop_last()) + seq![rec@]) + normalize_all(
                            entry_views(rest@),
                        )->0 =~= rec_views(records@.drop_last()) + (seq![rec@] + normalize_all(
                            entry_views(rest@),
                        )->0));
                    }
                }
            },
            Err(er) => {
                proof {
                    assert(normalize_all(eviews.skip(k)) is None);
                }
                return Err(er);
            },
        }
    }
    proof {
        assert(entry_views(rest@).len() == 0);
        assert(normalize_all(entry_views(rest@)) == Some(Seq::<RecordView>::empty()));
        assert(rec_views(records@) + Seq::<RecordView>::empty() =~= rec_views(records@));
        assert(normalize_all(eviews) == Some(rec_views(records@)));
    }
    let existing = store.links();
    let ghost ls = links_seq(item_views(store.items@));
    let ghost inviews = rec_views(records@);
    let deduped = dedupe(records, &existing);
    proof {
        lemma_dedupe_len(inviews, ls);
        assert forall|i: int| 0 <= i < deduped@.len() implies (#[trigger] deduped@[i])@.wf() by {
            assert(rec_views(deduped@)[i] == deduped@[i]@);
            lemma_dedupe_element_source(inviews, ls, i);
            let s = choose|s: int|
                0 <= s < inviews.len() && inviews[s] == dedupe_spec(inviews, ls)[i];
            assert(inviews[s].wf());
        }
    }
    let outcome = write_batches(store, deduped);
    Ok(outcome)
}

} // verus!
