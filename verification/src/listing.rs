//! Listings that come in pages: what to ask for next, and what the answers
//! make together.
use vstd::prelude::*;

use crate::calendar;
use crate::calendar::{
    dedupe_events, envelope_events, envelope_more, has_id, next_page, padded,
    parse_events_envelope, query_windows, unique_events, untyped_page, windowed, windows,
    CALENDAR_MAX_WINDOW_SECS,
};
use crate::contacts::more_contacts;
use crate::contacts::CONTACTS_PAGE_SIZE;
use crate::error::ProtonError;
use crate::json;
use crate::json::{Json, JsonModel};
use crate::models;
use crate::models::{CalendarEvent, Contact, ContactsListResponse, EventModel};
use crate::rows;
use crate::rows::ContactModel;

verus! {

/// Kinds of listings that the server splits a window into.
pub const QUERY_TYPES: u32 = 4;

/// The last page of a typed listing that is asked for.
pub const LAST_TYPED_PAGE: u32 = 100;

/// The last page of an untyped listing that is asked for.
pub const LAST_UNTYPED_PAGE: u32 = 1000;

/// The rows of the pages from one on: up to the first behind which no more
/// follow, and no further than the last that is asked for.
pub open spec fn paged(
    pages: spec_fn(int) -> (Seq<EventModel>, bool),
    page: int,
    last: int,
) -> Seq<EventModel>
    decreases last - page,
{
    if pages(page).1 && page < last {
        pages(page).0 + paged(pages, page + 1, last)
    } else {
        pages(page).0
    }
}

/// A page is asked for: all before it say that more follow.
pub open spec fn asked(
    pages: spec_fn(int) -> (Seq<EventModel>, bool),
    page: int,
    last: int,
) -> bool {
    &&& 0 <= page <= last
    &&& forall|p: int| 0 <= p < page ==> (#[trigger] pages(p)).1
}

proof fn lemma_paged_holds(
    pages: spec_fn(int) -> (Seq<EventModel>, bool),
    from: int,
    page: int,
    last: int,
    e: EventModel,
)
    requires
        0 <= from <= page,
        asked(pages, page, last),
        pages(page).0.contains(e),
    ensures
        paged(pages, from, last).contains(e),
    decreases page - from,
{
    let rows = pages(from).0;
    if from < page {
        assert(pages(from).1);
        lemma_paged_holds(pages, from + 1, page, last, e);
        lemma_sum_contains(rows, paged(pages, from + 1, last), e);
    } else if pages(from).1 && from < last {
        lemma_sum_contains(rows, paged(pages, from + 1, last), e);
    }
}

proof fn lemma_sum_contains(a: Seq<EventModel>, b: Seq<EventModel>, e: EventModel)
    ensures
        (a + b).contains(e) <==> a.contains(e) || b.contains(e),
{
    if a.contains(e) {
        let i = choose|i: int| 0 <= i < a.len() && a[i] == e;
        assert((a + b)[i] == e);
    }
    if b.contains(e) {
        let i = choose|i: int| 0 <= i < b.len() && b[i] == e;
        assert((a + b)[a.len() + i] == e);
    }
    if (a + b).contains(e) {
        let i = choose|i: int| 0 <= i < (a + b).len() && (a + b)[i] == e;
        if i < a.len() {
            assert(a[i] == e);
        } else {
            assert(b[i - a.len()] == e);
        }
    }
}

// ---------------------------------------------------------------------
// Typed listings
// ---------------------------------------------------------------------

/// What a typed listing asks the server for.
#[derive(Debug, Clone, Copy, PartialEq, Eq, Structural)]
pub struct Query {
    pub query_type: u32,
    pub start: i64,
    pub end: i64,
    pub page: u32,
}

/// A typed listing of a time under way: the windows that it takes, where in
/// them it stands and the rows so far.
#[derive(Debug)]
pub struct Listing {
    windows: Vec<(i64, i64)>,
    at: usize,
    query_type: u32,
    page: u32,
    rows: Vec<CalendarEvent>,
}

/// What a [`Listing`] holds: the windows that are left, the kind and the page
/// that are asked for in the first of them, and the rows so far.
#[verifier::ext_equal]
pub struct ListingModel {
    pub left: Seq<(i64, i64)>,
    pub query_type: int,
    pub page: int,
    pub rows: Seq<EventModel>,
}

impl View for Listing {
    type V = ListingModel;

    closed spec fn view(&self) -> ListingModel {
        ListingModel {
            left: self.windows@.skip(self.at as int),
            query_type: self.query_type as int,
            page: self.page as int,
            rows: models::events_view(self.rows@),
        }
    }
}

/// The windows of a time that is listed.
pub open spec fn listed_windows(start: int, end: int) -> Seq<(i64, i64)> {
    padded(windows(start, end, CALENDAR_MAX_WINDOW_SECS - 2 * 86400))
}

/// Where a listing starts.
pub open spec fn listing_start(start: int, end: int) -> ListingModel {
    ListingModel { left: listed_windows(start, end), query_type: 0, page: 0, rows: seq![] }
}

/// What a listing asks for next; nothing when no window is left.
pub open spec fn listing_query(m: ListingModel) -> Option<Query> {
    if m.left.len() == 0 {
        None
    } else {
        Some(window_query(m.left[0], m.query_type, m.page))
    }
}

pub open spec fn window_query(w: (i64, i64), query_type: int, page: int) -> Query {
    Query { query_type: query_type as u32, start: w.0, end: w.1, page: page as u32 }
}

/// A listing after an answer: the next page where more follow, else the next
/// kind, else the next window.
pub open spec fn listing_step(m: ListingModel, v: JsonModel) -> ListingModel {
    let rows = m.rows + envelope_events(v);
    if envelope_more(v, m.page) && m.page < LAST_TYPED_PAGE {
        ListingModel { page: m.page + 1, rows, ..m }
    } else if m.query_type < QUERY_TYPES - 1 {
        ListingModel { query_type: m.query_type + 1, page: 0, rows, ..m }
    } else {
        ListingModel { left: m.left.drop_first(), query_type: 0, page: 0, rows }
    }
}

impl Listing {
    pub closed spec fn wf(&self) -> bool {
        &&& self.at <= self.windows@.len()
        &&& self.query_type < QUERY_TYPES
        &&& self.page <= LAST_TYPED_PAGE
    }

    /// A listing of the rows from one time to another.
    pub fn new(start: i64, end: i64) -> (r: Listing)
        ensures
            r.wf(),
            r@ == listing_start(start as int, end as int),
    {
        let w: Vec<(i64, i64)> = query_windows(start, end);
        assert(w@.skip(0) =~= w@);
        let r = Listing { windows: w, at: 0, query_type: 0, page: 0, rows: Vec::new() };
        assert(models::events_view(r.rows@) =~= seq![]);
        r
    }

    /// What to ask for next.
    pub fn query(&self) -> (r: Option<Query>)
        requires
            self.wf(),
        ensures
            r == listing_query(self@),
    {
        if self.at < self.windows.len() {
            let w: (i64, i64) = self.windows[self.at];
            Some(
                Query {
                    query_type: self.query_type,
                    start: w.0,
                    end: w.1,
                    page: self.page,
                },
            )
        } else {
            None
        }
    }

    /// Takes the answer to what was asked for, and gives the number of its
    /// rows.
    pub fn answer(&mut self, v: &Json) -> (r: usize)
        requires
            old(self).wf(),
            listing_query(old(self)@) is Some,
        ensures
            final(self).wf(),
            final(self)@ == listing_step(old(self)@, v@),
            r == envelope_events(v@).len(),
    {
        let ghost m = self@;
        let ghost had = self.rows@;
        assert(self.at < self.windows.len());
        let (evs, more): (Vec<CalendarEvent>, bool) = parse_events_envelope(v, self.page);
        let n: usize = evs.len();
        let ghost new = evs@;
        let mut evs: Vec<CalendarEvent> = evs;
        self.rows.append(&mut evs);
        assert(models::events_view(self.rows@) =~= models::events_view(had)
            + models::events_view(new));
        match next_page(self.page, more, LAST_TYPED_PAGE) {
            Some(p) => {
                self.page = p;
            },
            None => {
                self.page = 0;
                if self.query_type + 1 < QUERY_TYPES {
                    self.query_type = self.query_type + 1;
                } else {
                    self.query_type = 0;
                    self.at = self.at + 1;
                    assert(self@.left =~= m.left.drop_first());
                }
            },
        }
        n
    }

    /// The rows of a listing, each ID once.
    pub fn finish(self) -> (r: Vec<CalendarEvent>)
        ensures
            models::events_view(r@) == unique_events(self@.rows),
    {
        let mut rows: Vec<CalendarEvent> = self.rows;
        dedupe_events(&mut rows);
        rows
    }
}

/// The rows that a listing has when nothing is left to ask for, given what
/// the server answers to each query.
pub open spec fn listing_run(m: ListingModel, server: spec_fn(Query) -> JsonModel) -> Seq<
    EventModel,
>
    decreases m.left.len(), QUERY_TYPES - m.query_type, LAST_TYPED_PAGE - m.page,
{
    match listing_query(m) {
        None => m.rows,
        Some(q) => listing_run(listing_step(m, server(q)), server),
    }
}

/// The pages of one kind of a window.
pub open spec fn typed_pages(
    server: spec_fn(Query) -> JsonModel,
    w: (i64, i64),
    query_type: int,
) -> spec_fn(int) -> (Seq<EventModel>, bool) {
    |p: int|
        (
            envelope_events(server(window_query(w, query_type, p))),
            envelope_more(server(window_query(w, query_type, p)), p),
        )
}

/// The rows of a window from one kind on.
pub open spec fn window_rows(
    server: spec_fn(Query) -> JsonModel,
    w: (i64, i64),
    query_type: int,
) -> Seq<EventModel>
    decreases QUERY_TYPES - query_type,
{
    if query_type >= QUERY_TYPES {
        seq![]
    } else {
        paged(typed_pages(server, w, query_type), 0, LAST_TYPED_PAGE as int) + window_rows(
            server,
            w,
            query_type + 1,
        )
    }
}

/// The rows of windows, one after the other.
pub open spec fn windows_rows(
    server: spec_fn(Query) -> JsonModel,
    ws: Seq<(i64, i64)>,
) -> Seq<EventModel>
    decreases ws.len(),
{
    if ws.len() == 0 {
        seq![]
    } else {
        window_rows(server, ws[0], 0) + windows_rows(server, ws.drop_first())
    }
}

proof fn lemma_listing_run(m: ListingModel, server: spec_fn(Query) -> JsonModel)
    requires
        0 <= m.query_type < QUERY_TYPES,
        0 <= m.page <= LAST_TYPED_PAGE,
    ensures
        listing_run(m, server) == m.rows + (if m.left.len() == 0 {
            seq![]
        } else {
            paged(
                typed_pages(server, m.left[0], m.query_type),
                m.page,
                LAST_TYPED_PAGE as int,
            ) + window_rows(server, m.left[0], m.query_type + 1) + windows_rows(
                server,
                m.left.drop_first(),
            )
        }),
    decreases m.left.len(), QUERY_TYPES - m.query_type, LAST_TYPED_PAGE - m.page,
{
    if m.left.len() > 0 {
        let w = m.left[0];
        let v = server(window_query(w, m.query_type, m.page));
        let next = listing_step(m, v);
        let pages = typed_pages(server, w, m.query_type);
        assert(pages(m.page) == (envelope_events(v), envelope_more(v, m.page)));
        lemma_listing_run(next, server);
        let later = window_rows(server, w, m.query_type + 1);
        let others = windows_rows(server, m.left.drop_first());
        if envelope_more(v, m.page) && m.page < LAST_TYPED_PAGE {
            assert(m.rows + envelope_events(v) + (paged(
                pages,
                m.page + 1,
                LAST_TYPED_PAGE as int,
            ) + later + others) =~= m.rows + (paged(pages, m.page, LAST_TYPED_PAGE as int) + later
                + others));
        } else if m.query_type < QUERY_TYPES - 1 {
            assert(listing_run(m, server) =~= m.rows + (envelope_events(v) + later + others));
        } else {
            assert(later =~= seq![]);
            if next.left.len() > 0 {
                assert(others =~= paged(
                    typed_pages(server, next.left[0], 0),
                    0,
                    LAST_TYPED_PAGE as int,
                ) + window_rows(server, next.left[0], 1) + windows_rows(
                    server,
                    next.left.drop_first(),
                ));
            }
            assert(listing_run(m, server) =~= m.rows + (envelope_events(v) + later + others));
        }
    } else {
        assert(m.rows + seq![] =~= m.rows);
    }
}

proof fn lemma_window_holds(
    server: spec_fn(Query) -> JsonModel,
    w: (i64, i64),
    from: int,
    query_type: int,
    page: int,
    e: EventModel,
)
    requires
        0 <= from <= query_type < QUERY_TYPES,
        asked(typed_pages(server, w, query_type), page, LAST_TYPED_PAGE as int),
        typed_pages(server, w, query_type)(page).0.contains(e),
    ensures
        window_rows(server, w, from).contains(e),
    decreases query_type - from,
{
    let first = paged(typed_pages(server, w, from), 0, LAST_TYPED_PAGE as int);
    lemma_sum_contains(first, window_rows(server, w, from + 1), e);
    if from < query_type {
        lemma_window_holds(server, w, from + 1, query_type, page, e);
    } else {
        lemma_paged_holds(
            typed_pages(server, w, query_type),
            0,
            page,
            LAST_TYPED_PAGE as int,
            e,
        );
    }
}

proof fn lemma_windows_hold(
    server: spec_fn(Query) -> JsonModel,
    ws: Seq<(i64, i64)>,
    i: int,
    query_type: int,
    page: int,
    e: EventModel,
)
    requires
        0 <= i < ws.len(),
        0 <= query_type < QUERY_TYPES,
        asked(typed_pages(server, ws[i], query_type), page, LAST_TYPED_PAGE as int),
        typed_pages(server, ws[i], query_type)(page).0.contains(e),
    ensures
        windows_rows(server, ws).contains(e),
    decreases i,
{
    lemma_sum_contains(
        window_rows(server, ws[0], 0),
        windows_rows(server, ws.drop_first()),
        e,
    );
    if i > 0 {
        assert(ws.drop_first()[i - 1] == ws[i]);
        lemma_windows_hold(server, ws.drop_first(), i - 1, query_type, page, e);
    } else {
        lemma_window_holds(server, ws[0], 0, query_type, page, e);
    }
}

/// Whatever the server answers, a listing that has run to its end holds the
/// rows of all windows, kinds and pages in their order.
pub proof fn law_listing_runs_through(start: int, end: int, server: spec_fn(Query) -> JsonModel)
    ensures
        listing_run(listing_start(start, end), server) == windows_rows(
            server,
            listed_windows(start, end),
        ),
{
    let m = listing_start(start, end);
    lemma_listing_run(m, server);
    if m.left.len() > 0 {
        assert(window_rows(server, m.left[0], 0) =~= paged(
            typed_pages(server, m.left[0], 0),
            0,
            LAST_TYPED_PAGE as int,
        ) + window_rows(server, m.left[0], 1));
    }
    assert(listing_run(m, server) =~= windows_rows(server, m.left));
}

/// A finished listing misses no row: the ID of every row on every page that
/// is asked for, of every kind and window, is in it, and no ID is in it
/// twice.
pub proof fn law_listing_misses_no_row(
    start: int,
    end: int,
    server: spec_fn(Query) -> JsonModel,
    i: int,
    query_type: int,
    page: int,
    e: EventModel,
)
    requires
        0 <= i < listed_windows(start, end).len(),
        0 <= query_type < QUERY_TYPES,
        asked(
            typed_pages(server, listed_windows(start, end)[i], query_type),
            page,
            LAST_TYPED_PAGE as int,
        ),
        typed_pages(server, listed_windows(start, end)[i], query_type)(page).0.contains(e),
    ensures
        has_id(unique_events(listing_run(listing_start(start, end), server)), e.id),
        forall|j: int, k: int|
            0 <= j < k < unique_events(
                listing_run(listing_start(start, end), server),
            ).len() ==> (#[trigger] unique_events(
                listing_run(listing_start(start, end), server),
            )[j]).id != (#[trigger] unique_events(
                listing_run(listing_start(start, end), server),
            )[k]).id,
{
    let all = windows_rows(server, listed_windows(start, end));
    law_listing_runs_through(start, end, server);
    lemma_windows_hold(server, listed_windows(start, end), i, query_type, page, e);
    calendar::law_unique_events(all);
    let k = choose|k: int| 0 <= k < all.len() && all[k] == e;
    assert(has_id(unique_events(all), all[k].id));
}

/// The rows of answers, one after the other; an answer that did not come has
/// none.
pub open spec fn answers_rows(answers: Seq<Option<JsonModel>>) -> Seq<EventModel>
    decreases answers.len(),
{
    if answers.len() == 0 {
        seq![]
    } else {
        answers_rows(answers.drop_last()) + (match answers.last() {
            Some(v) => envelope_events(v),
            None => seq![],
        })
    }
}

pub open spec fn answer_models(answers: Seq<Option<Json>>) -> Seq<Option<JsonModel>> {
    Seq::new(
        answers.len(),
        |i: int|
            match answers[i] {
                Some(v) => Some(v@),
                None => None,
            },
    )
}

/// The rows of the first page of each kind, each ID once.
pub fn first_pages(answers: &Vec<Option<Json>>) -> (r: Vec<CalendarEvent>)
    ensures
        models::events_view(r@) == unique_events(answers_rows(answer_models(answers@))),
{
    let ghost all = answer_models(answers@);
    let mut out: Vec<CalendarEvent> = Vec::new();
    let mut i: usize = 0;
    assert(models::events_view(out@) =~= seq![]);
    while i < answers.len()
        invariant
            i <= answers@.len(),
            all == answer_models(answers@),
            models::events_view(out@) == answers_rows(all.take(i as int)),
        decreases answers@.len() - i,
    {
        assert(all.take(i + 1).drop_last() =~= all.take(i as int));
        assert(all.take(i + 1).last() == all[i as int]);
        let ghost had = out@;
        match &answers[i] {
            Some(v) => {
                let (evs, _more): (Vec<CalendarEvent>, bool) = parse_events_envelope(v, 0);
                let ghost new = evs@;
                let mut evs: Vec<CalendarEvent> = evs;
                out.append(&mut evs);
                assert(models::events_view(out@) =~= models::events_view(had)
                    + models::events_view(new));
            },
            None => {
                assert(models::events_view(out@) =~= answers_rows(all.take(i as int)) + seq![]);
            },
        }
        i = i + 1;
    }
    assert(all.take(all.len() as int) =~= all);
    dedupe_events(&mut out);
    out
}

// ---------------------------------------------------------------------
// The untyped listing
// ---------------------------------------------------------------------

/// An untyped listing of a time under way: the page that is asked for and the
/// rows so far.
#[derive(Debug)]
pub struct UntypedListing {
    start: i64,
    end: i64,
    page: Option<u32>,
    rows: Vec<CalendarEvent>,
}

/// What an [`UntypedListing`] holds.
#[verifier::ext_equal]
pub struct UntypedModel {
    pub start: int,
    pub end: int,
    pub page: Option<int>,
    pub rows: Seq<EventModel>,
}

impl View for UntypedListing {
    type V = UntypedModel;

    closed spec fn view(&self) -> UntypedModel {
        UntypedModel {
            start: self.start as int,
            end: self.end as int,
            page: match self.page {
                Some(p) => Some(p as int),
                None => None,
            },
            rows: models::events_view(self.rows@),
        }
    }
}

/// Where an untyped listing starts.
pub open spec fn untyped_start(start: int, end: int) -> UntypedModel {
    UntypedModel { start, end, page: Some(0), rows: seq![] }
}

/// What a page of the untyped listing brings: the rows of the time that is
/// listed and whether more follow.
pub open spec fn untyped_rows(v: JsonModel, page: int, start: int, end: int) -> (
    Seq<EventModel>,
    bool,
) {
    (windowed(envelope_events(v), start, end), envelope_more(v, page))
}

/// An untyped listing after an answer.
pub open spec fn untyped_step(m: UntypedModel, v: JsonModel) -> UntypedModel {
    let page = m.page.unwrap();
    let brought = untyped_rows(v, page, m.start, m.end);
    UntypedModel {
        page: if brought.1 && page < LAST_UNTYPED_PAGE {
            Some(page + 1)
        } else {
            None
        },
        rows: m.rows + brought.0,
        ..m
    }
}

impl UntypedListing {
    pub closed spec fn wf(&self) -> bool {
        self.page matches Some(p) ==> p <= LAST_UNTYPED_PAGE
    }

    /// A listing of the rows from one time to another.
    pub fn new(start: i64, end: i64) -> (r: UntypedListing)
        ensures
            r.wf(),
            r@ == untyped_start(start as int, end as int),
    {
        let r = UntypedListing { start, end, page: Some(0), rows: Vec::new() };
        assert(models::events_view(r.rows@) =~= seq![]);
        r
    }

    /// The page to ask for next.
    pub fn query(&self) -> (r: Option<u32>)
        ensures
            match r {
                Some(p) => self@.page == Some(p as int),
                None => self@.page is None,
            },
    {
        self.page
    }

    /// Takes the answer to what was asked for; the error leaves the listing
    /// as it is.
    pub fn answer(&mut self, status: u16, body: &str) -> (r: Result<(), ProtonError>)
        requires
            old(self).wf(),
            old(self)@.page is Some,
        ensures
            final(self).wf(),
            match r {
                Ok(_) => status == 200 && (json::json_of_text(body@) matches Ok(v) && final(self)@
                    == untyped_step(old(self)@, v)),
                Err(e) => final(self)@ == old(self)@ && calendar::untyped_error(
                    status,
                    body@,
                    e,
                ),
            },
    {
        let page: u32 = match self.page {
            Some(p) => p,
            None => 0,
        };
        match untyped_page(status, body, page, self.start, self.end) {
            Ok((evs, more)) => {
                let ghost had = self.rows@;
                let ghost new = evs@;
                let mut evs: Vec<CalendarEvent> = evs;
                self.rows.append(&mut evs);
                assert(models::events_view(self.rows@) =~= models::events_view(had)
                    + models::events_view(new));
                self.page = next_page(page, more, LAST_UNTYPED_PAGE);
                Ok(())
            },
            Err(e) => Err(e),
        }
    }

    /// The rows of a listing, each ID once.
    pub fn finish(self) -> (r: Vec<CalendarEvent>)
        ensures
            models::events_view(r@) == unique_events(self@.rows),
    {
        let mut rows: Vec<CalendarEvent> = self.rows;
        dedupe_events(&mut rows);
        rows
    }
}

/// The rows that an untyped listing has when nothing is left to ask for,
/// given what the server answers for each page.
pub open spec fn untyped_run(m: UntypedModel, server: spec_fn(int) -> JsonModel) -> Seq<EventModel>
    decreases
            (if m.page is Some {
                1int
            } else {
                0
            }),
            LAST_UNTYPED_PAGE - m.page.unwrap(),
{
    match m.page {
        None => m.rows,
        Some(p) => untyped_run(untyped_step(m, server(p)), server),
    }
}

pub open spec fn untyped_pages(
    server: spec_fn(int) -> JsonModel,
    start: int,
    end: int,
) -> spec_fn(int) -> (Seq<EventModel>, bool) {
    |p: int| untyped_rows(server(p), p, start, end)
}

proof fn lemma_untyped_run(m: UntypedModel, server: spec_fn(int) -> JsonModel)
    requires
        m.page matches Some(p) && p <= LAST_UNTYPED_PAGE,
    ensures
        untyped_run(m, server) == m.rows + paged(
            untyped_pages(server, m.start, m.end),
            m.page.unwrap(),
            LAST_UNTYPED_PAGE as int,
        ),
    decreases LAST_UNTYPED_PAGE - m.page.unwrap(),
{
    let page = m.page.unwrap();
    let pages = untyped_pages(server, m.start, m.end);
    let next = untyped_step(m, server(page));
    assert(pages(page) == untyped_rows(server(page), page, m.start, m.end));
    if next.page is Some {
        lemma_untyped_run(next, server);
        assert(next.rows + paged(pages, page + 1, LAST_UNTYPED_PAGE as int) =~= m.rows + paged(
            pages,
            page,
            LAST_UNTYPED_PAGE as int,
        ));
    } else {
        assert(untyped_run(next, server) == next.rows);
    }
}

/// A finished untyped listing misses no row of its time: the ID of every such
/// row, and of every recurring one, on every page that is asked for is in it,
/// and no ID is in it twice.
pub proof fn law_untyped_listing_misses_no_row(
    start: int,
    end: int,
    server: spec_fn(int) -> JsonModel,
    page: int,
    e: EventModel,
)
    requires
        asked(untyped_pages(server, start, end), page, LAST_UNTYPED_PAGE as int),
        envelope_events(server(page)).contains(e),
        calendar::in_window(e, start, end),
    ensures
        has_id(unique_events(untyped_run(untyped_start(start, end), server)), e.id),
        forall|j: int, k: int|
            0 <= j < k < unique_events(
                untyped_run(untyped_start(start, end), server),
            ).len() ==> (#[trigger] unique_events(
                untyped_run(untyped_start(start, end), server),
            )[j]).id != (#[trigger] unique_events(
                untyped_run(untyped_start(start, end), server),
            )[k]).id,
{
    let pages = untyped_pages(server, start, end);
    let all = untyped_run(untyped_start(start, end), server);
    lemma_untyped_run(untyped_start(start, end), server);
    assert(all =~= paged(pages, 0, LAST_UNTYPED_PAGE as int));
    calendar::law_window_rows(envelope_events(server(page)), start, end, e);
    lemma_paged_holds(pages, 0, page, LAST_UNTYPED_PAGE as int, e);
    calendar::law_unique_events(all);
    let k = choose|k: int| 0 <= k < all.len() && all[k] == e;
    assert(has_id(unique_events(all), all[k].id));
}

// ---------------------------------------------------------------------
// The listing of contacts
// ---------------------------------------------------------------------

/// A listing of contacts under way: the page that is asked for and the
/// contacts so far.
#[derive(Debug)]
pub struct ContactListing {
    page: Option<u32>,
    contacts: Vec<Contact>,
}

/// What a [`ContactListing`] holds.
#[verifier::ext_equal]
pub struct ContactListingModel {
    pub page: Option<int>,
    pub contacts: Seq<ContactModel>,
}

impl View for ContactListing {
    type V = ContactListingModel;

    closed spec fn view(&self) -> ContactListingModel {
        ContactListingModel {
            page: match self.page {
                Some(p) => Some(p as int),
                None => None,
            },
            contacts: rows::views(self.contacts@),
        }
    }
}

/// Where a listing of contacts starts.
pub open spec fn contacts_start() -> ContactListingModel {
    ContactListingModel { page: Some(0), contacts: seq![] }
}

/// Whether a listing of contacts goes on behind an answer: it has not
/// brought as many as there are, and the page was full.
pub open spec fn contacts_go_on(so_far: int, a: rows::ContactsModel) -> bool {
    (a.total < 0 || so_far < a.total) && a.contacts.len() >= CONTACTS_PAGE_SIZE
}

/// A listing of contacts after an answer.
pub open spec fn contacts_step(
    m: ContactListingModel,
    a: rows::ContactsModel,
) -> ContactListingModel {
    let contacts = m.contacts + a.contacts;
    ContactListingModel {
        page: if contacts_go_on(contacts.len() as int, a) {
            Some(m.page.unwrap() + 1)
        } else {
            None
        },
        contacts,
    }
}

impl ContactListing {
    pub fn new() -> (r: ContactListing)
        ensures
            r@ == contacts_start(),
    {
        let r = ContactListing { page: Some(0), contacts: Vec::new() };
        assert(rows::views(r.contacts@) =~= seq![]);
        r
    }

    /// The page to ask for next.
    pub fn query(&self) -> (r: Option<u32>)
        ensures
            match r {
                Some(p) => self@.page == Some(p as int),
                None => self@.page is None,
            },
    {
        self.page
    }

    /// Takes the page that was asked for.
    pub fn answer(&mut self, a: ContactsListResponse)
        requires
            old(self)@.page matches Some(p) && p < u32::MAX,
        ensures
            final(self)@ == contacts_step(old(self)@, a@),
    {
        let ghost had = self.contacts@;
        let ghost new = a.Contacts@;
        let total: i32 = a.Total;
        let mut contacts: Vec<Contact> = a.Contacts;
        let last_page: usize = contacts.len();
        self.contacts.append(&mut contacts);
        assert(rows::views(self.contacts@) =~= rows::views(had) + rows::views(new));
        self.page = match self.page {
            Some(p) if more_contacts(self.contacts.len(), total, last_page) => Some(p + 1),
            _ => None,
        };
    }

    /// The contacts of a listing.
    pub fn finish(self) -> (r: Vec<Contact>)
        ensures
            rows::views(r@) == self@.contacts,
    {
        self.contacts
    }
}

/// A listing of contacts after a number of pages.
pub open spec fn contacts_run(pages: Seq<rows::ContactsModel>) -> ContactListingModel
    decreases pages.len(),
{
    if pages.len() == 0 {
        contacts_start()
    } else {
        contacts_step(contacts_run(pages.drop_last()), pages.last())
    }
}

/// The contacts of pages, one after the other.
pub open spec fn pages_contacts(pages: Seq<rows::ContactsModel>) -> Seq<ContactModel>
    decreases pages.len(),
{
    if pages.len() == 0 {
        seq![]
    } else {
        pages_contacts(pages.drop_last()) + pages.last().contacts
    }
}

/// A listing of contacts asks for the pages in their order, keeps all that
/// they bring, and ends with the first that is not full or that completes
/// the number that the server gives.
pub proof fn law_contacts_listed(pages: Seq<rows::ContactsModel>)
    requires
        forall|k: int|
            0 < k < pages.len() ==> contacts_go_on(
                pages_contacts(#[trigger] pages.take(k)).len() as int,
                pages[k - 1],
            ),
    ensures
        contacts_run(pages).contacts == pages_contacts(pages),
        pages.len() > 0 ==> contacts_run(pages).page == (if contacts_go_on(
            pages_contacts(pages).len() as int,
            pages.last(),
        ) {
            Some(pages.len() as int)
        } else {
            None
        }),
    decreases pages.len(),
{
    if pages.len() > 0 {
        let init = pages.drop_last();
        assert forall|k: int| 0 < k < init.len() implies contacts_go_on(
            pages_contacts(#[trigger] init.take(k)).len() as int,
            init[k - 1],
        ) by {
            assert(init.take(k) =~= pages.take(k));
        }
        law_contacts_listed(init);
        if init.len() > 0 {
            assert(init =~= pages.take(init.len() as int));
        }
    }
}

/// A listing asks for four kinds of every window, and of each kind for the
/// pages up to number 100 while the server says that more follow: no row of
/// these is missed.
pub proof fn law_listing_asks_for_all(
    start: int,
    end: int,
    server: spec_fn(Query) -> JsonModel,
    i: int,
    kind: int,
    page: int,
    e: EventModel,
)
    requires
        0 <= i < listed_windows(start, end).len(),
        0 <= kind < 4,
        0 <= page <= 100,
        ({
            let w = listed_windows(start, end)[i];
            &&& forall|p: int|
                0 <= p < page ==> envelope_more(server(#[trigger] window_query(w, kind, p)), p)
            &&& envelope_events(server(window_query(w, kind, page))).contains(e)
        }),
    ensures
        has_id(unique_events(listing_run(listing_start(start, end), server)), e.id),
{
    let w = listed_windows(start, end)[i];
    let pages = typed_pages(server, w, kind);
    assert forall|p: int| 0 <= p < page implies (#[trigger] pages(p)).1 by {
        assert(envelope_more(server(window_query(w, kind, p)), p));
    }
    law_listing_misses_no_row(start, end, server, i, kind, page, e);
}

/// A listing asks first for the first page of the first kind of its first
/// window, and every question names window, kind and page.
pub proof fn law_listing_questions(start: int, end: int, w: (i64, i64), kind: u32, page: u32)
    ensures
        ({
            let q = window_query(w, kind as int, page as int);
            &&& q.start == w.0 && q.end == w.1
            &&& q.query_type == kind
            &&& q.page == page
        }),
        listed_windows(start, end).len() > 0 ==> listing_query(listing_start(start, end)) == Some(
            window_query(listed_windows(start, end)[0], 0, 0),
        ),
        listed_windows(start, end).len() == 0 ==> listing_query(listing_start(start, end)) is None,
{
}

/// A listing of contacts goes on while a page brings a hundred and the number
/// that the server gives is not reached.
pub proof fn law_contacts_go_on(so_far: int, a: rows::ContactsModel)
    ensures
        a.contacts.len() >= 100 && (so_far < a.total || a.total < 0) ==> contacts_go_on(so_far, a),
        a.contacts.len() < 100 ==> !contacts_go_on(so_far, a),
        0 <= a.total <= so_far ==> !contacts_go_on(so_far, a),
{
}

/// An untyped listing asks for the pages up to number 1000 while the server
/// says that more follow, and keeps of each the rows of its time.
pub proof fn law_untyped_listing_asks_on(m: UntypedModel, v: JsonModel, page: int)
    requires
        m.page == Some(page),
    ensures
        ({
            let is = untyped_step(m, v);
            &&& envelope_more(v, page) && page < 1000 ==> is.page == Some(page + 1)
            &&& !envelope_more(v, page) || page >= 1000 ==> is.page is None
            &&& is.rows == m.rows + windowed(envelope_events(v), m.start, m.end)
            &&& is.start == m.start && is.end == m.end
        }),
{
}

} // verus!
