//! `GET /documents/{id}/history`: the activity log for a document *number*:
//! events from every edition/revision sharing the number, merged
//! chronologically and tagged with their edition, plus the earliest creation
//! and latest edit timestamps across the whole number.

use vstd::prelude::*;

use crate::database::query::{or_empty, query, text_or_empty, BindView, ParamView, Query, QueryView,
    Row};
use crate::error::{AppError, ErrorView};
use crate::order::{arrange, is_order, key_views, order_holds_each, order_is_sorted,
    stable_order, KeyView, SortKey};
use crate::text::{before, blank, is_blank, text_lt, text_order_is_total, text_order_is_transitive};

verus! {

/// An event of a document's log, as it is stored.
#[derive(Debug)]
pub struct LoggedEvent<E> {
    /// When it happened, where that is a text.
    pub at: Option<String>,
    pub event: E,
}

/// A document whose log is merged.
#[derive(Debug)]
pub struct LoggedDocument<E> {
    pub edition: Option<u64>,
    pub created_at: Option<String>,
    pub updated_at: Option<String>,
    pub events: Vec<LoggedEvent<E>>,
}

/// An event of the merged log.
#[derive(Debug)]
pub struct Entry<E> {
    /// The edition of the document that it happened on.
    pub edition: u64,
    pub event: E,
}

/// The merged log of a document number.
#[derive(Debug)]
pub struct History<E> {
    pub document_number: String,
    pub created_at: Option<String>,
    pub updated_at: Option<String>,
    pub events: Vec<Entry<E>>,
}

/// The query for the number that the document `id` belongs to.
pub open spec fn number_query(id: Seq<char>) -> QueryView {
    query(
        "resolve document number"@,
        "SELECT document_number FROM type::record('document', $id)"@,
    ).text("id"@, id)
}

/// The query for the number that the document `id` belongs to.
pub fn history(id: String) -> (r: Query)
    ensures
        r@ == number_query(id@),
{
    Query::new(
        "resolve document number",
        "SELECT document_number FROM type::record('document', $id)".to_string(),
    ).text("id", id)
}

/// The query for the documents whose logs are merged: every edition sharing the
/// number, or just the record `id` where it has no number, as an empty number
/// must not merge unrelated documents.
pub open spec fn logs_query(id: Seq<char>, number: Seq<char>) -> QueryView {
    if is_blank(number) {
        query(
            "collect record history"@,
            "SELECT edition, created_at, updated_at, events FROM type::record('document', $id)"@,
        ).text("id"@, id)
    } else {
        query(
            "collect number history"@,
            "SELECT edition, created_at, updated_at, events FROM document WHERE document_number = $num"@,
        ).text("num"@, number)
    }
}

/// The number of the document `id` and the query for the documents whose logs
/// are merged, where there is such a document.
pub fn number_resolved<T>(id: String, row: Option<Row<T>>) -> (r: Result<
    (String, Query),
    AppError,
>)
    ensures
        match row {
            Some(row) => r matches Ok((number, q)) && number@ == or_empty(
                row.fields.document_number,
            ) && q@ == logs_query(id@, number@),
            None => r matches Err(e) && e@ == ErrorView::NotFound,
        },
{
    let row = match row {
        Some(row) => row,
        None => return Err(AppError::NotFound),
    };
    let number = text_or_empty(row.fields.document_number);
    let q = if blank(number.as_str()) {
        Query::new(
            "collect record history",
            "SELECT edition, created_at, updated_at, events FROM type::record('document', $id)".to_string(),
        ).text("id", id)
    } else {
        Query::new(
            "collect number history",
            "SELECT edition, created_at, updated_at, events FROM document WHERE document_number = $num".to_string(),
        ).text("num", number.clone())
    };
    Ok((number, q))
}

/// The edition that the events of `doc` are tagged with.
pub open spec fn edition_of<E>(doc: LoggedDocument<E>) -> u64 {
    match doc.edition {
        Some(n) => n,
        None => 0,
    }
}

/// The events of `doc`, tagged with its edition.
pub open spec fn entries_of<E>(doc: LoggedDocument<E>) -> Seq<Entry<E>> {
    doc.events@.map_values(
        |e: LoggedEvent<E>| Entry { edition: edition_of(doc), event: e.event },
    )
}

/// When the events of `doc` happened.
pub open spec fn times_of<E>(doc: LoggedDocument<E>) -> Seq<KeyView> {
    doc.events@.map_values(|e: LoggedEvent<E>| KeyView { number: 0, text: or_empty(e.at) })
}

/// The events of `docs`, one document behind the other.
pub open spec fn all_entries<E>(docs: Seq<LoggedDocument<E>>) -> Seq<Entry<E>>
    decreases docs.len(),
{
    if docs.len() == 0 {
        seq![]
    } else {
        all_entries(docs.drop_last()) + entries_of(docs.last())
    }
}

/// When the events of `docs` happened.
pub open spec fn all_times<E>(docs: Seq<LoggedDocument<E>>) -> Seq<KeyView>
    decreases docs.len(),
{
    if docs.len() == 0 {
        seq![]
    } else {
        all_times(docs.drop_last()) + times_of(docs.last())
    }
}

/// The least of the texts that there are.
pub open spec fn least(texts: Seq<Option<Seq<char>>>) -> Option<Seq<char>>
    decreases texts.len(),
{
    if texts.len() == 0 {
        None
    } else {
        match (least(texts.drop_last()), texts.last()) {
            (Some(a), Some(b)) => Some(if text_lt(b, a) { b } else { a }),
            (None, b) => b,
            (a, None) => a,
        }
    }
}

/// The greatest of the texts that there are.
pub open spec fn greatest(texts: Seq<Option<Seq<char>>>) -> Option<Seq<char>>
    decreases texts.len(),
{
    if texts.len() == 0 {
        None
    } else {
        match (greatest(texts.drop_last()), texts.last()) {
            (Some(a), Some(b)) => Some(if text_lt(a, b) { b } else { a }),
            (None, b) => b,
            (a, None) => a,
        }
    }
}

/// When `docs` were created.
pub open spec fn creations<E>(docs: Seq<LoggedDocument<E>>) -> Seq<Option<Seq<char>>> {
    docs.map_values(|d: LoggedDocument<E>| d.created_at.deep_view())
}

/// When `docs` were last edited.
pub open spec fn edits<E>(docs: Seq<LoggedDocument<E>>) -> Seq<Option<Seq<char>>> {
    docs.map_values(|d: LoggedDocument<E>| d.updated_at.deep_view())
}

/// The least text is one of the texts, and none is less.
pub proof fn least_is_least(texts: Seq<Option<Seq<char>>>)
    ensures
        match least(texts) {
            Some(m) => texts.contains(Some(m)) && forall|i: int|
                0 <= i < texts.len() && #[trigger] texts[i] is Some ==> !text_lt(texts[i]->0, m),
            None => forall|i: int| 0 <= i < texts.len() ==> #[trigger] texts[i] is None,
        },
    decreases texts.len(),
{
    if texts.len() > 0 {
        let front = texts.drop_last();
        let n = texts.len() - 1;
        least_is_least(front);
        if let Some(m) = least(texts) {
            if texts.last() == Some(m) {
                assert(texts[n] == Some(m));
            } else {
                let i = choose|i: int| 0 <= i < front.len() && front[i] == Some(m);
                assert(texts[i] == Some(m));
            }
            assert forall|i: int|
                0 <= i < texts.len() && #[trigger] texts[i] is Some implies !text_lt(
                texts[i]->0,
                m,
            ) by {
                let t = texts[i]->0;
                text_order_is_total(m, m);
                if i < n {
                    assert(front[i] == texts[i]);
                    let a = least(front)->0;
                    if m != a {
                        text_order_is_total(m, a);
                        text_order_is_total(t, a);
                        text_order_is_total(t, m);
                        if text_lt(t, m) {
                            text_order_is_transitive(t, m, a);
                        }
                    }
                }
            }
        } else {
            assert forall|i: int| 0 <= i < texts.len() implies #[trigger] texts[i] is None by {
                if i < n {
                    assert(front[i] == texts[i]);
                }
            }
        }
    }
}

/// The greatest text is one of the texts, and none is greater.
pub proof fn greatest_is_greatest(texts: Seq<Option<Seq<char>>>)
    ensures
        match greatest(texts) {
            Some(m) => texts.contains(Some(m)) && forall|i: int|
                0 <= i < texts.len() && #[trigger] texts[i] is Some ==> !text_lt(m, texts[i]->0),
            None => forall|i: int| 0 <= i < texts.len() ==> #[trigger] texts[i] is None,
        },
    decreases texts.len(),
{
    if texts.len() > 0 {
        let front = texts.drop_last();
        let n = texts.len() - 1;
        greatest_is_greatest(front);
        if let Some(m) = greatest(texts) {
            if texts.last() == Some(m) {
                assert(texts[n] == Some(m));
            } else {
                let i = choose|i: int| 0 <= i < front.len() && front[i] == Some(m);
                assert(texts[i] == Some(m));
            }
            assert forall|i: int|
                0 <= i < texts.len() && #[trigger] texts[i] is Some implies !text_lt(
                m,
                texts[i]->0,
            ) by {
                let t = texts[i]->0;
                text_order_is_total(m, m);
                if i < n {
                    assert(front[i] == texts[i]);
                    let a = greatest(front)->0;
                    if m != a {
                        text_order_is_total(a, m);
                        text_order_is_total(a, t);
                        text_order_is_total(m, t);
                        if text_lt(m, t) {
                            text_order_is_transitive(a, m, t);
                        }
                    }
                }
            }
        } else {
            assert forall|i: int| 0 <= i < texts.len() implies #[trigger] texts[i] is None by {
                if i < n {
                    assert(front[i] == texts[i]);
                }
            }
        }
    }
}

proof fn lemma_as_many<E>(docs: Seq<LoggedDocument<E>>)
    ensures
        all_entries(docs).len() == all_times(docs).len(),
    decreases docs.len(),
{
    if docs.len() > 0 {
        lemma_as_many(docs.drop_last());
    }
}

/// The items of `items` arranged as `order` says.
fn rearrange<T>(items: Vec<T>, order: &Vec<usize>) -> (r: Vec<T>)
    requires
        order@.no_duplicates(),
        forall|k: int| 0 <= k < order@.len() ==> (#[trigger] order@[k]) < items@.len(),
    ensures
        r@ == arrange(items@, order@),
{
    let mut slots: Vec<Option<T>> = Vec::new();
    let ghost all = items@;
    for item in it: items
        invariant
            it.seq() == all,
            slots@.len() == it.index(),
            forall|i: int| 0 <= i < it.index() ==> #[trigger] slots@[i] == Some(all[i]),
    {
        slots.push(Some(item));
    }
    let mut out: Vec<T> = Vec::new();
    for k in 0..order.len()
        invariant
            slots@.len() == all.len(),
            order@.no_duplicates(),
            forall|j: int| 0 <= j < order@.len() ==> (#[trigger] order@[j]) < all.len(),
            forall|j: int|
                k <= j < order@.len() ==> slots@[(#[trigger] order@[j]) as int] == Some(
                    all[order@[j] as int],
                ),
            out@ == arrange(all, order@).take(k as int),
    {
        let at: usize = order[k];
        let mut slot: Option<T> = None;
        core::mem::swap(&mut slots[at], &mut slot);
        if let Some(item) = slot {
            out.push(item);
        }
        proof {
            assert(arrange(all, order@).take(k + 1) =~= arrange(all, order@).take(k as int).push(
                all[at as int],
            ));
        }
    }
    proof {
        assert(arrange(all, order@).take(order@.len() as int) =~= arrange(all, order@));
    }
    out
}

/// The log of the number `number` merged from those of `docs`: events in the
/// order in which they happened, those of the same time in the order they came
/// in. RFC 3339 timestamps in UTC sort correctly as texts; an event without a
/// time comes first.
pub fn merged<E>(number: String, docs: Vec<LoggedDocument<E>>) -> (r: History<E>)
    ensures
        r.document_number == number,
        r.created_at.deep_view() == least(creations(docs@)),
        r.updated_at.deep_view() == greatest(edits(docs@)),
        exists|order: Seq<usize>|
            is_order(all_times(docs@), order) && r.events@ == #[trigger] arrange(
                all_entries(docs@),
                order,
            ),
        is_merged_log(docs@, r.events@),
{
    let ghost all = docs@;
    let mut created_at: Option<String> = None;
    let mut updated_at: Option<String> = None;
    let mut entries: Vec<Entry<E>> = Vec::new();
    let mut keys: Vec<SortKey> = Vec::new();
    proof {
        assert(all.take(0) =~= seq![]);
        assert(creations(all).take(0) =~= seq![]);
        assert(edits(all).take(0) =~= seq![]);
        assert(key_views(keys@) =~= seq![]);
    }
    for doc in it: docs
        invariant
            it.seq() == all,
            created_at.deep_view() == least(creations(all).take(it.index() as int)),
            updated_at.deep_view() == greatest(edits(all).take(it.index() as int)),
            entries@ == all_entries(all.take(it.index() as int)),
            key_views(keys@) == all_times(all.take(it.index() as int)),
    {
        let ghost k = it.index() as int;
        proof {
            assert(all.take(k + 1).drop_last() =~= all.take(k));
            assert(all.take(k + 1).last() == doc);
            assert(creations(all).take(k + 1).drop_last() =~= creations(all).take(k));
            assert(creations(all).take(k + 1).last() == doc.created_at.deep_view());
            assert(edits(all).take(k + 1).drop_last() =~= edits(all).take(k));
            assert(edits(all).take(k + 1).last() == doc.updated_at.deep_view());
        }
        let edition: u64 = match doc.edition {
            Some(n) => n,
            None => 0,
        };
        if let Some(c) = doc.created_at {
            let earlier = match &created_at {
                Some(cur) => before(c.as_str(), cur.as_str()),
                None => true,
            };
            if earlier {
                created_at = Some(c);
            }
        }
        if let Some(u) = doc.updated_at {
            let later = match &updated_at {
                Some(cur) => before(cur.as_str(), u.as_str()),
                None => true,
            };
            if later {
                updated_at = Some(u);
            }
        }
        let ghost events = doc.events@;
        let ghost were = entries@;
        let ghost times = key_views(keys@);
        let ghost tagged = entries_of(doc);
        let ghost at = times_of(doc);
        proof {
            assert(were + tagged.take(0) =~= were);
            assert(times + at.take(0) =~= times);
        }
        for e in inner: doc.events
            invariant
                inner.seq() == events,
                events == doc.events@,
                edition == edition_of(doc),
                tagged == entries_of(doc),
                at == times_of(doc),
                entries@ == were + tagged.take(inner.index() as int),
                key_views(keys@) == times + at.take(inner.index() as int),
        {
            let ghost j = inner.index() as int;
            let key = SortKey { number: 0, text: text_or_empty(e.at) };
            let ghost ks = key_views(keys@);
            keys.push(key);
            let entry = Entry { edition, event: e.event };
            entries.push(entry);
            proof {
                assert(key_views(keys@) =~= ks.push(key@));
                assert(tagged.take(j + 1) =~= tagged.take(j).push(entry));
                assert(at.take(j + 1) =~= at.take(j).push(key@));
                assert(were + tagged.take(j).push(entry) =~= (were + tagged.take(j)).push(entry));
                assert(times + at.take(j).push(key@) =~= (times + at.take(j)).push(key@));
            }
        }
        proof {
            assert(tagged.take(tagged.len() as int) =~= tagged);
            assert(at.take(at.len() as int) =~= at);
        }
    }
    proof {
        assert(all.take(all.len() as int) =~= all);
        assert(creations(all).take(all.len() as int) =~= creations(all));
        assert(edits(all).take(all.len() as int) =~= edits(all));
        lemma_as_many(all);
        assert(keys.len() == key_views(keys@).len());
    }
    let order: Vec<usize> = stable_order(&keys);
    proof {
        order_holds_each(key_views(keys@), order@);
    }
    let events = rearrange(entries, &order);
    proof {
        log_goes_by_time(all, order@);
    }
    History { document_number: number, created_at, updated_at, events }
}

/// The merged log is chronological: no event stands before one that happened
/// earlier.
pub proof fn history_is_chronological<E>(
    docs: Seq<LoggedDocument<E>>,
    order: Seq<usize>,
    a: int,
    b: int,
)
    requires
        is_order(all_times(docs), order),
        0 <= a <= b < order.len(),
    ensures
        !text_lt(all_times(docs)[order[b] as int].text, all_times(docs)[order[a] as int].text),
{
    order_is_sorted(all_times(docs), order, a, b);
    lemma_times_have_no_number(docs);
}

proof fn lemma_times_have_no_number<E>(docs: Seq<LoggedDocument<E>>)
    ensures
        forall|i: int|
            0 <= i < all_times(docs).len() ==> (#[trigger] all_times(docs)[i]).number == 0,
    decreases docs.len(),
{
    if docs.len() > 0 {
        lemma_times_have_no_number(docs.drop_last());
        let front = all_times(docs.drop_last());
        assert forall|i: int| 0 <= i < all_times(docs).len() implies (#[trigger] all_times(
            docs,
        )[i]).number == 0 by {
            if i < front.len() {
                assert(all_times(docs)[i] == front[i]);
            } else {
                assert(all_times(docs)[i] == times_of(docs.last())[i - front.len()]);
            }
        }
    }
}

/// The merged log loses no event and makes up none: it has as many events as
/// the documents' logs together, and each of those stands in it.
pub proof fn history_keeps_each_event<E>(docs: Seq<LoggedDocument<E>>, order: Seq<usize>)
    requires
        is_order(all_times(docs), order),
        all_times(docs).len() <= usize::MAX,
    ensures
        arrange(all_entries(docs), order).len() == all_entries(docs).len(),
        order.no_duplicates(),
        forall|i: int|
            0 <= i < all_entries(docs).len() ==> arrange(all_entries(docs), order).contains(
                #[trigger] all_entries(docs)[i],
            ),
{
    lemma_as_many(docs);
    order_holds_each(all_times(docs), order);
    let out = arrange(all_entries(docs), order);
    assert forall|i: int| 0 <= i < all_entries(docs).len() implies out.contains(
        #[trigger] all_entries(docs)[i],
    ) by {
        assert(order.contains(i as usize));
        let k = choose|k: int| 0 <= k < order.len() && order[k] == i as usize;
        assert(out[k] == all_entries(docs)[i]);
    }
}

/// Each event of the merged log is tagged with the edition of the document that
/// it happened on.
pub proof fn entries_are_tagged<E>(docs: Seq<LoggedDocument<E>>, i: int)
    requires
        0 <= i < all_entries(docs).len(),
    ensures
        exists|d: int, e: int|
            0 <= d < docs.len() && 0 <= e < docs[d].events@.len() && all_entries(docs)[i].event
                == (#[trigger] docs[d].events@[e]).event && all_entries(docs)[i].edition
                == edition_of(docs[d]),
    decreases docs.len(),
{
    let front = docs.drop_last();
    let n = all_entries(front).len();
    if i < n {
        entries_are_tagged(front, i);
        let (d, e) = choose|d: int, e: int|
            0 <= d < front.len() && 0 <= e < front[d].events@.len() && all_entries(front)[i].event
                == (#[trigger] front[d].events@[e]).event && all_entries(front)[i].edition
                == edition_of(front[d]);
        assert(docs[d] == front[d]);
        assert(all_entries(docs)[i] == all_entries(front)[i]);
        assert(docs[d].events@[e] == front[d].events@[e]);
    } else {
        let d = docs.len() - 1;
        assert(all_entries(docs)[i] == entries_of(docs[d])[i - n]);
        assert(docs[d].events@[i - n] == docs.last().events@[i - n]);
    }
}

/// A document without a number has the history of its own record and of no
/// other.
pub proof fn unnumbered_stands_alone(id: Seq<char>, number: Seq<char>)
    requires
        is_blank(number),
    ensures
        logs_query(id, number).binds == seq![
            BindView {
                name: "id"@,
                value: ParamView::Text(id),
            },
        ],
{
    assert(logs_query(id, number).binds =~= seq![
        BindView {
            name: "id"@,
            value: ParamView::Text(id),
        },
    ]);
}

// ---------------------------------------------------------------------------
// Laws
// ---------------------------------------------------------------------------

/// An event of one of `docs`: which document it is logged on, and where there.
pub struct Origin {
    pub doc: int,
    pub event: int,
}

/// `o` is an event of `docs`.
pub open spec fn is_logged<E>(docs: Seq<LoggedDocument<E>>, o: Origin) -> bool {
    0 <= o.doc < docs.len() && 0 <= o.event < docs[o.doc].events@.len()
}

/// When the event `o` happened, as its document has it; empty where it does not
/// say.
pub open spec fn time_at<E>(docs: Seq<LoggedDocument<E>>, o: Origin) -> Seq<char> {
    match docs[o.doc].events@[o.event].at {
        Some(t) => t@,
        None => Seq::empty(),
    }
}

/// `a` is logged before `b`: on an earlier document, or earlier on the same one.
pub open spec fn logged_before(a: Origin, b: Origin) -> bool {
    a.doc < b.doc || a.doc == b.doc && a.event < b.event
}

/// `log` is made of the events of `docs` that `from` names, in that order, each
/// tagged with the edition of its document.
pub open spec fn tells<E>(
    docs: Seq<LoggedDocument<E>>,
    log: Seq<Entry<E>>,
    from: Seq<Origin>,
) -> bool {
    &&& from.len() == log.len()
    &&& forall|i: int|
        0 <= i < log.len() ==> {
            let o = #[trigger] from[i];
            &&& is_logged(docs, o)
            &&& log[i].event == docs[o.doc].events@[o.event].event
            &&& log[i].edition == match docs[o.doc].edition {
                Some(n) => n,
                None => 0,
            }
        }
}

/// `log` is the merged log of `docs`: every event once, and of two events the one
/// that happened earlier first; of two that happened at the same time, the one
/// that was logged before the other.
pub open spec fn is_merged_log<E>(docs: Seq<LoggedDocument<E>>, log: Seq<Entry<E>>) -> bool {
    exists|from: Seq<Origin>| #[trigger]
        tells(docs, log, from) && from.no_duplicates() && (forall|o: Origin| #[trigger]
            is_logged(docs, o) ==> from.contains(o)) && forall|i: int, j: int|
            0 <= i < j < from.len() ==> {
                &&& !text_lt(time_at(docs, #[trigger] from[j]), time_at(docs, #[trigger] from[i]))
                &&& time_at(docs, from[i]) == time_at(docs, from[j]) ==> logged_before(
                    from[i],
                    from[j],
                )
            }
}

/// Where the event at `p` comes from, the events of `docs` one document behind
/// the other.
spec fn origin<E>(docs: Seq<LoggedDocument<E>>, p: int) -> Origin
    decreases docs.len(),
{
    if docs.len() == 0 {
        Origin { doc: -1, event: -1 }
    } else {
        let n = all_entries(docs.drop_last()).len();
        if p < n {
            origin(docs.drop_last(), p)
        } else {
            Origin { doc: docs.len() - 1, event: p - n }
        }
    }
}

proof fn lemma_origin<E>(docs: Seq<LoggedDocument<E>>, p: int)
    requires
        0 <= p < all_entries(docs).len(),
    ensures
        ({
            let o = origin(docs, p);
            &&& is_logged(docs, o)
            &&& all_entries(docs)[p].event == docs[o.doc].events@[o.event].event
            &&& all_entries(docs)[p].edition == match docs[o.doc].edition {
                Some(n) => n,
                None => 0,
            }
            &&& all_times(docs)[p].text == time_at(docs, o)
        }),
    decreases docs.len(),
{
    let front = docs.drop_last();
    let n = all_entries(front).len();
    lemma_as_many(front);
    if p < n {
        lemma_origin(front, p);
        let o = origin(front, p);
        assert(docs[o.doc] == front[o.doc]);
        assert(all_entries(docs)[p] == all_entries(front)[p]);
        assert(all_times(docs)[p] == all_times(front)[p]);
        assert(time_at(docs, o) == time_at(front, o));
    } else {
        let d = docs.last();
        assert(all_entries(docs)[p] == entries_of(d)[p - n]);
        assert(all_times(docs)[p] == times_of(d)[p - n]);
    }
}

proof fn lemma_origins_in_order<E>(docs: Seq<LoggedDocument<E>>, p: int, q: int)
    requires
        0 <= p < q < all_entries(docs).len(),
    ensures
        logged_before(origin(docs, p), origin(docs, q)),
    decreases docs.len(),
{
    let front = docs.drop_last();
    let n = all_entries(front).len();
    if q < n {
        lemma_origins_in_order(front, p, q);
    } else if p < n {
        lemma_origin(front, p);
    }
}

proof fn lemma_origin_of_each<E>(docs: Seq<LoggedDocument<E>>, o: Origin) -> (p: int)
    requires
        is_logged(docs, o),
    ensures
        0 <= p < all_entries(docs).len(),
        origin(docs, p) == o,
    decreases docs.len(),
{
    let front = docs.drop_last();
    let n = all_entries(front).len();
    if o.doc < front.len() {
        assert(front[o.doc] == docs[o.doc]);
        lemma_origin_of_each(front, o)
    } else {
        n + o.event
    }
}

/// The merged log goes by the events' own times: of two entries that stand one
/// before the other, the event of the second did not happen before that of the
/// first, and no event of the documents is left out, made up or told twice.
pub proof fn log_goes_by_time<E>(docs: Seq<LoggedDocument<E>>, order: Seq<usize>)
    requires
        is_order(all_times(docs), order),
        all_times(docs).len() <= usize::MAX,
    ensures
        is_merged_log(docs, arrange(all_entries(docs), order)),
{
    lemma_as_many(docs);
    lemma_times_have_no_number(docs);
    order_holds_each(all_times(docs), order);
    let log = arrange(all_entries(docs), order);
    let from = Seq::new(order.len(), |i: int| origin(docs, order[i] as int));
    assert forall|i: int| 0 <= i < log.len() implies {
        let o = #[trigger] from[i];
        &&& is_logged(docs, o)
        &&& log[i].event == docs[o.doc].events@[o.event].event
        &&& log[i].edition == match docs[o.doc].edition {
            Some(n) => n,
            None => 0,
        }
    } by {
        lemma_origin(docs, order[i] as int);
    }
    assert(tells(docs, log, from));
    assert forall|i: int, j: int| 0 <= i < from.len() && 0 <= j < from.len() && i != j implies
        from[i] != from[j] by {
        let p = order[i] as int;
        let q = order[j] as int;
        assert(order[i] != order[j]);
        if p < q {
            lemma_origins_in_order(docs, p, q);
        } else {
            lemma_origins_in_order(docs, q, p);
        }
    }
    assert forall|o: Origin| #[trigger] is_logged(docs, o) implies from.contains(o) by {
        let p = lemma_origin_of_each(docs, o);
        assert(order.contains(p as usize));
        let k = choose|k: int| 0 <= k < order.len() && order[k] == p as usize;
        assert(from[k] == o);
    }
    assert forall|i: int, j: int| 0 <= i < j < from.len() implies {
        &&& !text_lt(time_at(docs, #[trigger] from[j]), time_at(docs, #[trigger] from[i]))
        &&& time_at(docs, from[i]) == time_at(docs, from[j]) ==> logged_before(from[i], from[j])
    } by {
        let p = order[i] as int;
        let q = order[j] as int;
        lemma_origin(docs, p);
        lemma_origin(docs, q);
        order_is_sorted(all_times(docs), order, i, j);
        assert(order[i] != order[j]);
        if p < q {
            lemma_origins_in_order(docs, p, q);
        }
    }
}

/// The number's creation is the earliest of its documents' creations, and its
/// last edit the latest of their edits, by the documents' own fields.
pub proof fn dates_span_the_number<E>(docs: Seq<LoggedDocument<E>>)
    ensures
        match least(creations(docs)) {
            Some(m) => {
                &&& exists|d: int|
                    0 <= d < docs.len() && (#[trigger] docs[d]).created_at is Some
                        && docs[d].created_at->0@ == m
                &&& forall|d: int|
                    0 <= d < docs.len() && (#[trigger] docs[d]).created_at is Some ==> !text_lt(
                        docs[d].created_at->0@,
                        m,
                    )
            },
            None => forall|d: int|
                0 <= d < docs.len() ==> (#[trigger] docs[d]).created_at is None,
        },
        match greatest(edits(docs)) {
            Some(m) => {
                &&& exists|d: int|
                    0 <= d < docs.len() && (#[trigger] docs[d]).updated_at is Some
                        && docs[d].updated_at->0@ == m
                &&& forall|d: int|
                    0 <= d < docs.len() && (#[trigger] docs[d]).updated_at is Some ==> !text_lt(
                        m,
                        docs[d].updated_at->0@,
                    )
            },
            None => forall|d: int|
                0 <= d < docs.len() ==> (#[trigger] docs[d]).updated_at is None,
        },
{
    let cs = creations(docs);
    let es = edits(docs);
    least_is_least(cs);
    greatest_is_greatest(es);
    assert forall|d: int| 0 <= d < docs.len() implies #[trigger] cs[d]
        == docs[d].created_at.deep_view() && es[d] == docs[d].updated_at.deep_view() by {}
    if let Some(m) = least(cs) {
        let d = choose|d: int| 0 <= d < cs.len() && cs[d] == Some(m);
        assert(docs[d].created_at is Some);
    }
    if let Some(m) = greatest(es) {
        let d = choose|d: int| 0 <= d < es.len() && es[d] == Some(m);
        assert(docs[d].updated_at is Some);
    }
    assert forall|d: int|
        0 <= d < docs.len() && (#[trigger] docs[d]).created_at is Some && least(
            cs,
        ) is Some implies !text_lt(docs[d].created_at->0@, least(cs)->0) by {
        assert(cs[d] is Some);
    }
    assert forall|d: int|
        0 <= d < docs.len() && (#[trigger] docs[d]).updated_at is Some && greatest(
            es,
        ) is Some implies !text_lt(greatest(es)->0, docs[d].updated_at->0@) by {
        assert(es[d] is Some);
    }
    if least(cs) is None {
        assert forall|d: int| 0 <= d < docs.len() implies (#[trigger] docs[d]).created_at is None by {
            assert(cs[d] is None);
        }
    }
    if greatest(es) is None {
        assert forall|d: int| 0 <= d < docs.len() implies (#[trigger] docs[d]).updated_at is None by {
            assert(es[d] is None);
        }
    }
}

/// The history of a document begins with its number. With a number the logs of
/// all documents of that number are read, without one only the document's own.
pub proof fn history_is_of_the_number(id: Seq<char>, number: Seq<char>)
    ensures
        number_query(id).sql == "SELECT document_number FROM type::record('document', $id)"@,
        number_query(id).binds.len() == 1,
        number_query(id).binds[0] == (BindView { name: "id"@, value: ParamView::Text(id) }),
        logs_query(id, number).binds.len() == 1,
        is_blank(number) ==> logs_query(id, number).sql
            == "SELECT edition, created_at, updated_at, events FROM type::record('document', $id)"@
            && logs_query(id, number).binds[0] == (BindView {
            name: "id"@,
            value: ParamView::Text(id),
        }),
        !is_blank(number) ==> logs_query(id, number).sql
            == "SELECT edition, created_at, updated_at, events FROM document WHERE document_number = $num"@
            && logs_query(id, number).binds[0] == (BindView {
            name: "num"@,
            value: ParamView::Text(number),
        }),
{
}

/// The queries of a history go by these names in the log.
pub proof fn history_queries_are_named(id: Seq<char>, number: Seq<char>)
    ensures
        number_query(id).op == "resolve document number"@,
        is_blank(number) ==> logs_query(id, number).op == "collect record history"@,
        !is_blank(number) ==> logs_query(id, number).op == "collect number history"@,
{
}

} // verus!
