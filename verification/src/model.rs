//! Data model of the pipeline: raw entries as received, normalized
//! records ready to persist, and stored items, each with a mathematical
//! view used by the contracts.

use vstd::prelude::*;

use crate::dates::Timestamp;

verus! {

/// View of an optional owned string.
pub open spec fn opt_view(o: Option<String>) -> Option<Seq<char>> {
    match o {
        Some(s) => Some(s@),
        None => None,
    }
}

/// Fields of one entry-like record as decoded from a syndication
/// document; every field may be missing.
pub struct EntryFields {
    pub title: Option<String>,
    pub link: Option<String>,
    pub description: Option<String>,
    pub author: Option<String>,
    pub guid: Option<String>,
    pub images: Option<String>,
    pub published: Option<String>,
    pub content: Option<String>,
}

/// One syndicated item as received, before normalization.
pub struct RawFeedEntry {
    pub title: String,
    pub link: String,
    pub description: Option<String>,
    pub author: String,
    pub guid: String,
    pub images: Option<String>,
    pub published: Option<String>,
    pub content: Option<String>,
}

/// Mathematical view of a raw entry.
pub ghost struct RawEntryView {
    pub title: Seq<char>,
    pub link: Seq<char>,
    pub description: Option<Seq<char>>,
    pub author: Seq<char>,
    pub guid: Seq<char>,
    pub images: Option<Seq<char>>,
    pub published: Option<Seq<char>>,
    pub content: Option<Seq<char>>,
}

impl View for RawFeedEntry {
    type V = RawEntryView;

    open spec fn view(&self) -> RawEntryView {
        RawEntryView {
            title: self.title@,
            link: self.link@,
            description: opt_view(self.description),
            author: self.author@,
            guid: self.guid@,
            images: opt_view(self.images),
            published: opt_view(self.published),
            content: opt_view(self.content),
        }
    }
}

/// A normalized entry, ready for persistence.
pub struct NormalizedFeedRecord {
    pub title: String,
    pub link: Option<String>,
    pub description: Option<String>,
    pub content: Option<String>,
    pub author: Option<String>,
    pub image: Option<String>,
    pub published: Option<Timestamp>,
}

/// Mathematical view of a normalized record.
pub ghost struct RecordView {
    pub title: Seq<char>,
    pub link: Option<Seq<char>>,
    pub description: Option<Seq<char>>,
    pub content: Option<Seq<char>>,
    pub author: Option<Seq<char>>,
    pub image: Option<Seq<char>>,
    pub published: Option<Timestamp>,
}

impl RecordView {
    /// A record is well formed when its timestamp, if any, is.
    pub open spec fn wf(self) -> bool {
        match self.published {
            Some(ts) => ts.wf(),
            None => true,
        }
    }
}

impl View for NormalizedFeedRecord {
    type V = RecordView;

    open spec fn view(&self) -> RecordView {
        RecordView {
            title: self.title@,
            link: opt_view(self.link),
            description: opt_view(self.description),
            content: opt_view(self.content),
            author: opt_view(self.author),
            image: opt_view(self.image),
            published: self.published,
        }
    }
}

/// A persisted item: a normalized record plus its assigned identifier.
pub struct StoredFeedItem {
    pub id: u64,
    pub record: NormalizedFeedRecord,
}

/// Mathematical view of a stored item.
pub ghost struct ItemView {
    pub id: int,
    pub record: RecordView,
}

impl View for StoredFeedItem {
    type V = ItemView;

    open spec fn view(&self) -> ItemView {
        ItemView { id: self.id as int, record: self.record@ }
    }
}

/// Views of a sequence of raw entries.
pub open spec fn entry_views(s: Seq<RawFeedEntry>) -> Seq<RawEntryView> {
    s.map_values(|e: RawFeedEntry| e@)
}

/// Views of a sequence of records.
pub open spec fn rec_views(s: Seq<NormalizedFeedRecord>) -> Seq<RecordView> {
    s.map_values(|r: NormalizedFeedRecord| r@)
}

/// Views of a sequence of stored items.
pub open spec fn item_views(s: Seq<StoredFeedItem>) -> Seq<ItemView> {
    s.map_values(|r: StoredFeedItem| r@)
}

/// Views of a sequence of strings.
pub open spec fn str_views(s: Seq<String>) -> Seq<Seq<char>> {
    s.map_values(|r: String| r@)
}

/// Clone an optional string.
pub fn dup_opt(o: &Option<String>) -> (r: Option<String>)
    ensures
        opt_view(r) == opt_view(*o),
{
    match o {
        Some(s) => Some(s.clone()),
        None => None,
    }
}

impl NormalizedFeedRecord {
    /// Copy of this record, equal in view.
    pub fn duplicate(&self) -> (r: NormalizedFeedRecord)
        ensures
            r@ == self@,
    {
        NormalizedFeedRecord {
            title: self.title.clone(),
            link: dup_opt(&self.link),
            description: dup_opt(&self.description),
            content: dup_opt(&self.content),
            author: dup_opt(&self.author),
            image: dup_opt(&self.image),
            published: self.published,
        }
    }
}

impl StoredFeedItem {
    /// Copy of this item, equal in view.
    pub fn duplicate(&self) -> (r: StoredFeedItem)
        ensures
            r@ == self@,
    {
        StoredFeedItem { id: self.id, record: self.record.duplicate() }
    }
}

/// The raw entry read from one entry-like record: text fields default to
/// empty, optional fields stay as decoded.
pub open spec fn entry_of_fields(
    title: Option<Seq<char>>,
    link: Option<Seq<char>>,
    description: Option<Seq<char>>,
    author: Option<Seq<char>>,
    guid: Option<Seq<char>>,
    images: Option<Seq<char>>,
    published: Option<Seq<char>>,
    content: Option<Seq<char>>,
) -> RawEntryView {
    RawEntryView {
        title: or_empty(title),
        link: or_empty(link),
        description,
        author: or_empty(author),
        guid: or_empty(guid),
        images,
        published,
        content,
    }
}

/// A text field's content, or empty when it failed to decode.
pub open spec fn or_empty(o: Option<Seq<char>>) -> Seq<char> {
    match o {
        Some(s) => s,
        None => Seq::empty(),
    }
}

/// Unwrap an optional string to its content or the empty string.
fn take_or_empty(o: Option<String>) -> (r: String)
    ensures
        r@ == or_empty(opt_view(o)),
{
    match o {
        Some(s) => s,
        None => String::new(),
    }
}

/// Turn decoded entry-like records into raw feed entries, in source
/// order, dropping none; fields that failed to decode are defaulted.
pub fn parse_entries(source: Vec<EntryFields>) -> (r: Vec<RawFeedEntry>)
    ensures
        r@.len() == source@.len(),
        forall|i: int|
            0 <= i < r@.len() ==> r@[i]@ == entry_of_fields(
                opt_view(#[trigger] source@[i].title),
                opt_view(source@[i].link),
                opt_view(source@[i].description),
                opt_view(source@[i].author),
                opt_view(source@[i].guid),
                opt_view(source@[i].images),
                opt_view(source@[i].published),
                opt_view(source@[i].content),
            ),
{
    let ghost orig = source@;
    let mut rest = source;
    let mut out: Vec<RawFeedEntry> = Vec::new();
    while rest.len() > 0
        invariant
            out@.len() + rest@.len() == orig.len(),
            rest@ == orig.skip(out@.len() as int),
            forall|i: int|
                0 <= i < out@.len() ==> out@[i]@ == entry_of_fields(
                    opt_view(#[trigger] orig[i].title),
                    opt_view(orig[i].link),
                    opt_view(orig[i].description),
                    opt_view(orig[i].author),
                    opt_view(orig[i].guid),
                    opt_view(orig[i].images),
                    opt_view(orig[i].published),
                    opt_view(orig[i].content),
                ),
        decreases rest@.len(),
    {
        let f = rest.remove(0);
        proof {
            assert(f == orig[out@.len() as int]);
            assert(rest@ =~= orig.skip(out@.len() + 1 as int));
        }
        let e = RawFeedEntry {
            title: take_or_empty(f.title),
            link: take_or_empty(f.link),
            description: f.description,
            author: take_or_empty(f.author),
            guid: take_or_empty(f.guid),
            images: f.images,
            published: f.published,
            content: f.content,
        };
        out.push(e);
    }
    out
}

} // verus!
