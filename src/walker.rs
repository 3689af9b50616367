use vstd::prelude::*;

use crate::date::{date_in_format, date_le, date_lt, parse_date, Date, DateRange};
use crate::error::ScrapeError;
use crate::record::{
    group_records, item_views, lemma_error_stays, lemma_group_dates, log_views, records_of_group, LineItem,
    LineItemView, Log, LogView,
};
use crate::text::{regex_first_group, PRODUCT_LINK_PATTERN};

verus! {

/// The format in which the listing writes a purchase date (`2021年8月17日`).
pub const LISTING_DATE_FORMAT: &'static str = "%Y年%m月%d日";

/// The state of a listing page's "next page" control.
#[derive(Clone, Copy, Debug, PartialEq, Eq, Structural)]
pub enum NextControl {
    /// Present and enabled: another page follows.
    Enabled,
    /// Present but disabled: this is the last page.
    Disabled,
    /// Not on the page: the listing has a single page.
    Absent,
}

/// What the driver of an extraction is to do next, and then report.
#[derive(Clone, Copy, Debug, PartialEq, Eq, Structural)]
pub enum Step {
    /// Log out, then log in; report `Event::Done`.
    SignIn,
    /// Open the home view once; report `Event::Done`.
    OpenHome,
    /// Open the listing of a year; report `Event::Page` for its first page.
    OpenYear(i32),
    /// Read the purchase date of the order group at this index of the current page;
    /// report `Event::DateText`.
    ReadDate(usize),
    /// Open the order group at this index, read its line items and go back to the
    /// listing; report `Event::Items`.
    ReadItems(usize),
    /// Activate the "next page" control; report `Event::Page` for the page it opens.
    TurnPage,
    /// The extraction is complete: take the records with `into_records`.
    Finish,
}

/// What the driver saw when it performed a step.
pub enum Event {
    /// The sign-in or the home view succeeded.
    Done,
    /// A listing page was loaded: how many order groups it holds, and its "next page" control.
    Page { groups: usize, next: NextControl },
    /// The purchase date of an order group, as the page writes it.
    DateText(String),
    /// The line items of an order group.
    Items(Vec<LineItem>),
}

/// An event as plain values.
pub enum EventView {
    Done,
    Page { groups: usize, next: NextControl },
    DateText(Seq<char>),
    Items(Seq<LineItemView>),
}

impl View for Event {
    type V = EventView;

    open spec fn view(&self) -> EventView {
        match self {
            Event::Done => EventView::Done,
            Event::Page { groups, next } => EventView::Page { groups: *groups, next: *next },
            Event::DateText(t) => EventView::DateText(t@),
            Event::Items(items) => EventView::Items(item_views(items@)),
        }
    }
}

/// Where an extraction stands.
#[derive(Clone, Copy, Debug, PartialEq, Eq, Structural)]
pub enum Phase {
    SigningIn,
    OpeningHome,
    LoadingPage,
    ReadingDate,
    /// Reading the line items of an in-window group bought on this date.
    ReadingItems(Date),
    Finished,
    Failed,
}

/// An extraction as plain values.
pub struct ExtractionView {
    /// The window, both ends included.
    pub first: Date,
    pub last: Date,
    /// How the listing writes a purchase date.
    pub date_format: Seq<char>,
    /// The years to walk, most recent first.
    pub years: Seq<i32>,
    /// The index in `years` of the listing being walked.
    pub year: usize,
    /// The number of order groups on the current page.
    pub groups: usize,
    /// The current page's "next page" control.
    pub next: NextControl,
    /// The index of the group being examined on the current page.
    pub group: usize,
    pub phase: Phase,
    /// The records gathered so far, in the order met.
    pub records: Seq<LogView>,
}

/// `d` lies in the window of `v`.
pub open spec fn in_window(v: ExtractionView, d: Date) -> bool {
    date_le(v.first, d) && date_le(d, v.last)
}

/// The state invariant of an extraction.
pub open spec fn well_formed(v: ExtractionView) -> bool {
    &&& date_le(v.first, v.last)
    &&& v.years.len() >= 1
    &&& (v.phase is LoadingPage || v.phase is ReadingDate || v.phase is ReadingItems)
        ==> v.year < v.years.len()
    &&& (v.phase is ReadingDate || v.phase is ReadingItems) ==> v.group < v.groups
    &&& (v.phase matches Phase::ReadingItems(d) ==> in_window(v, d))
    &&& forall|i: int| 0 <= i < v.records.len() ==> in_window(v, #[trigger] v.records[i].purchased_at)
}

/// The event answers the step that `v` waits on.
pub open spec fn awaits(v: ExtractionView, e: EventView) -> bool {
    match v.phase {
        Phase::SigningIn | Phase::OpeningHome => e is Done,
        Phase::LoadingPage => e is Page,
        Phase::ReadingDate => e is DateText,
        Phase::ReadingItems(_) => e is Items,
        Phase::Finished | Phase::Failed => false,
    }
}

/// The listing of the current year is done: go on with the next year, or finish.
pub open spec fn after_year(v: ExtractionView) -> (ExtractionView, Step) {
    if v.year + 1 < v.years.len() {
        (
            ExtractionView { year: (v.year + 1) as usize, phase: Phase::LoadingPage, ..v },
            Step::OpenYear(v.years[v.year + 1]),
        )
    } else {
        (ExtractionView { phase: Phase::Finished, ..v }, Step::Finish)
    }
}

/// The current page is scanned to its end: turn to the next page where one is enabled,
/// else the listing of the year is done.
pub open spec fn after_page(v: ExtractionView) -> (ExtractionView, Step) {
    if v.next is Enabled {
        (ExtractionView { phase: Phase::LoadingPage, ..v }, Step::TurnPage)
    } else {
        after_year(v)
    }
}

/// The current group is dealt with: examine the next group of the page, if any.
pub open spec fn after_group(v: ExtractionView) -> (ExtractionView, Step) {
    if v.group + 1 < v.groups {
        (
            ExtractionView { group: (v.group + 1) as usize, phase: Phase::ReadingDate, ..v },
            Step::ReadDate((v.group + 1) as usize),
        )
    } else {
        after_page(v)
    }
}

/// The move of an extraction in state `v` on event `e`: its next state and the step it
/// asks for, or the error that ends it.
///
/// A group dated after the window is skipped; a group dated before it ends the walk of
/// the year at once, since the listing runs newest first; a group in the window gives
/// its records.
pub open spec fn next_state(v: ExtractionView, e: EventView) -> Result<(ExtractionView, Step), ScrapeError> {
    match e {
        EventView::Done => if v.phase is SigningIn {
            Ok((ExtractionView { phase: Phase::OpeningHome, ..v }, Step::OpenHome))
        } else {
            Ok(
                (
                    ExtractionView { year: 0, phase: Phase::LoadingPage, ..v },
                    Step::OpenYear(v.years[0]),
                ),
            )
        },
        EventView::Page { groups, next } => {
            let w = ExtractionView { groups, next, group: 0, ..v };
            if groups > 0 {
                Ok((ExtractionView { phase: Phase::ReadingDate, ..w }, Step::ReadDate(0)))
            } else {
                Ok(after_page(w))
            }
        },
        EventView::DateText(t) => match date_in_format(t, v.date_format) {
            None => Err(ScrapeError::Parse(crate::error::Field::Date)),
            Some(d) => if date_lt(v.last, d) {
                Ok(after_group(v))
            } else if date_lt(d, v.first) {
                Ok(after_year(v))
            } else {
                Ok((ExtractionView { phase: Phase::ReadingItems(d), ..v }, Step::ReadItems(v.group)))
            },
        },
        EventView::Items(items) => {
            let d = v.phase->ReadingItems_0;
            match group_records(items, d) {
                Err(e) => Err(e),
                Ok(rs) => Ok(after_group(ExtractionView { records: v.records + rs, ..v })),
            }
        },
    }
}

/// The years from `last` down to `first`.
pub open spec fn descending_years(first: Date, last: Date) -> Seq<i32> {
    Seq::new((last.year - first.year + 1) as nat, |i: int| (last.year - i) as i32)
}

/// The state in which an extraction of the window `first..=last` starts.
pub open spec fn initial(first: Date, last: Date, date_format: Seq<char>) -> ExtractionView {
    ExtractionView {
        first,
        last,
        date_format,
        years: descending_years(first, last),
        year: 0,
        groups: 0,
        next: NextControl::Absent,
        group: 0,
        phase: Phase::SigningIn,
        records: Seq::empty(),
    }
}

/// The state that `v` reaches on a run of events, each taken in turn; an event that the
/// state does not wait on leaves it as it is. The first error ends the run.
pub open spec fn run(v: ExtractionView, events: Seq<EventView>) -> Result<ExtractionView, ScrapeError>
    decreases events.len(),
{
    if events.len() == 0 {
        Ok(v)
    } else if !awaits(v, events[0]) {
        run(v, events.drop_first())
    } else {
        match next_state(v, events[0]) {
            Err(e) => Err(e),
            Ok((w, _)) => run(w, events.drop_first()),
        }
    }
}

/// An extraction in progress: the decisions of the walk over a paginated, newest-first
/// order-history listing, one event at a time.
pub struct Extraction {
    range: DateRange,
    date_format: String,
    years: Vec<i32>,
    year: usize,
    groups: usize,
    next: NextControl,
    group: usize,
    phase: Phase,
    records: Vec<Log>,
}

impl View for Extraction {
    type V = ExtractionView;

    closed spec fn view(&self) -> ExtractionView {
        ExtractionView {
            first: self.range.first(),
            last: self.range.last(),
            date_format: self.date_format@,
            years: self.years@,
            year: self.year,
            groups: self.groups,
            next: self.next,
            group: self.group,
            phase: self.phase,
            records: log_views(self.records@),
        }
    }
}

impl Extraction {
    /// The extraction keeps its invariant.
    pub open spec fn wf(&self) -> bool {
        well_formed(self@)
    }

    /// Starts an extraction of the records bought within `range`, from a listing that
    /// writes purchase dates under `date_format`. The first step is to sign in.
    pub fn new(range: DateRange, date_format: String) -> (r: (Extraction, Step))
        ensures
            r.0.wf(),
            r.1 == Step::SignIn,
            r.0@ == initial(range.first(), range.last(), date_format@),
    {
        let _ = range.start();
        let years = range.years();
        let m = Extraction {
            range,
            date_format,
            years,
            year: 0,
            groups: 0,
            next: NextControl::Absent,
            group: 0,
            phase: Phase::SigningIn,
            records: Vec::new(),
        };
        proof {
            assert(log_views(m.records@) =~= Seq::<LogView>::empty());
            assert(m@.years =~= descending_years(range.first(), range.last()));
        }
        (m, Step::SignIn)
    }

    /// Moves to the next listing, or finishes.
    fn close_year(&mut self) -> (r: Step)
        requires
            old(self).wf(),
            old(self).year < old(self).years@.len(),
        ensures
            (final(self)@, r) == after_year(old(self)@),
    {
        let n = self.years.len();
        if self.year + 1 < n {
            self.year = self.year + 1;
            self.phase = Phase::LoadingPage;
            Step::OpenYear(self.years[self.year])
        } else {
            self.phase = Phase::Finished;
            Step::Finish
        }
    }

    /// Turns the page, or moves past the current listing.
    fn close_page(&mut self) -> (r: Step)
        requires
            old(self).wf(),
            old(self).year < old(self).years@.len(),
        ensures
            (final(self)@, r) == after_page(old(self)@),
    {
        if self.next == NextControl::Enabled {
            self.phase = Phase::LoadingPage;
            Step::TurnPage
        } else {
            self.close_year()
        }
    }

    /// Examines the next group of the page, or closes the page.
    fn close_group(&mut self) -> (r: Step)
        requires
            old(self).wf(),
            old(self).year < old(self).years@.len(),
            old(self).group < old(self).groups,
        ensures
            (final(self)@, r) == after_group(old(self)@),
    {
        if self.group + 1 < self.groups {
            self.group = self.group + 1;
            self.phase = Phase::ReadingDate;
            Step::ReadDate(self.group)
        } else {
            self.close_page()
        }
    }

    /// `event` answers the step that the extraction waits on.
    pub fn accepts(&self, event: &Event) -> (r: bool)
        ensures
            r == awaits(self@, event@),
    {
        match (self.phase, event) {
            (Phase::SigningIn, Event::Done) | (Phase::OpeningHome, Event::Done) => true,
            (Phase::LoadingPage, Event::Page { .. }) => true,
            (Phase::ReadingDate, Event::DateText(_)) => true,
            (Phase::ReadingItems(_), Event::Items(_)) => true,
            _ => false,
        }
    }

    /// Takes in what the driver saw when it performed the step asked for, and returns the
    /// next step. An error ends the extraction: it is then failed, and gives no records.
    pub fn advance(&mut self, event: Event) -> (r: Result<Step, ScrapeError>)
        requires
            old(self).wf(),
            awaits(old(self)@, event@),
        ensures
            final(self).wf(),
            match next_state(old(self)@, event@) {
                Ok((v, s)) => r == Ok::<Step, ScrapeError>(s) && final(self)@ == v,
                Err(e) => r == Err::<Step, ScrapeError>(e) && final(self)@ == (ExtractionView {
                    phase: Phase::Failed,
                    ..old(self)@
                }),
            },
    {
        let ghost v0 = self@;
        match event {
            Event::Done => {
                if self.phase == Phase::SigningIn {
                    self.phase = Phase::OpeningHome;
                    Ok(Step::OpenHome)
                } else {
                    self.year = 0;
                    self.phase = Phase::LoadingPage;
                    Ok(Step::OpenYear(self.years[0]))
                }
            },
            Event::Page { groups, next } => {
                self.groups = groups;
                self.next = next;
                self.group = 0;
                if groups > 0 {
                    self.phase = Phase::ReadingDate;
                    Ok(Step::ReadDate(0))
                } else {
                    Ok(self.close_page())
                }
            },
            Event::DateText(text) => {
                match parse_date(text.as_str(), self.date_format.as_str()) {
                    Err(e) => {
                        self.phase = Phase::Failed;
                        Err(e)
                    },
                    Ok(d) => {
                        let first = self.range.start();
                        let last = self.range.end();
                        if !d.is_on_or_before(&last) {
                            Ok(self.close_group())
                        } else if !first.is_on_or_before(&d) {
                            Ok(self.close_year())
                        } else {
                            self.phase = Phase::ReadingItems(d);
                            Ok(Step::ReadItems(self.group))
                        }
                    },
                }
            },
            Event::Items(items) => {
                let d = match self.phase {
                    Phase::ReadingItems(d) => d,
                    _ => self.range.start(),
                };
                match records_of_group(&items, d) {
                    Err(e) => {
                        self.phase = Phase::Failed;
                        Err(e)
                    },
                    Ok(rs) => {
                        let mut rs = rs;
                        let ghost before = self.records@;
                        let ghost added = rs@;
                        self.records.append(&mut rs);
                        proof {
                            assert(log_views(self.records@) =~= log_views(before) + log_views(
                                added,
                            ));
                            lemma_group_dates(item_views(items@), d);
                        }
                        Ok(self.close_group())
                    },
                }
            },
        }
    }

    /// The records gathered, once the extraction has finished; none before, and none
    /// after an error.
    pub fn into_records(self) -> (r: Option<Vec<Log>>)
        requires
            self.wf(),
        ensures
            self@.phase is Finished <==> r is Some,
            r matches Some(v) ==> log_views(v@) == self@.records,
            r matches Some(v) ==> forall|i: int|
                0 <= i < v@.len() ==> in_window(self@, #[trigger] v@[i].purchased_at),
    {
        if self.phase == Phase::Finished {
            let records = self.records;
            proof {
                assert forall|i: int| 0 <= i < records@.len() implies in_window(
                    self@,
                    #[trigger] records@[i].purchased_at,
                ) by {
                    assert(log_views(records@)[i] == records@[i]@);
                    assert(self@.records[i] == records@[i]@);
                    assert(in_window(self@, self@.records[i].purchased_at));
                }
            }
            Some(records)
        } else {
            None
        }
    }
}

/// Each move keeps the state invariant: in particular every record gathered lies in the
/// window.
pub proof fn lemma_move_well_formed(v: ExtractionView, e: EventView)
    requires
        well_formed(v),
        awaits(v, e),
    ensures
        next_state(v, e) matches Ok((w, _)) ==> well_formed(w),
{
    if let EventView::Items(items) = e {
        lemma_group_dates(items, v.phase->ReadingItems_0);
    }
}

/// No record outside the window is ever gathered: on any run of events from a
/// well-formed state, every record that the extraction holds lies in the window.
pub proof fn lemma_records_in_window(v: ExtractionView, events: Seq<EventView>)
    requires
        well_formed(v),
    ensures
        run(v, events) matches Ok(w) ==> well_formed(w) && forall|i: int|
            0 <= i < w.records.len() ==> in_window(v, #[trigger] w.records[i].purchased_at),
    decreases events.len(),
{
    if events.len() > 0 {
        if awaits(v, events[0]) {
            lemma_move_well_formed(v, events[0]);
            if let Ok((w, _)) = next_state(v, events[0]) {
                lemma_records_in_window(w, events.drop_first());
            }
        } else {
            lemma_records_in_window(v, events.drop_first());
        }
    }
}

/// `v` with its gathered records replaced by `records`.
pub open spec fn with_records(v: ExtractionView, records: Seq<LogView>) -> ExtractionView {
    ExtractionView { records, ..v }
}

/// The records that one move adds.
pub open spec fn added_by(v: ExtractionView, e: EventView) -> Seq<LogView> {
    match (e, v.phase) {
        (EventView::Items(items), Phase::ReadingItems(d)) => match group_records(items, d) {
            Ok(rs) => rs,
            Err(_) => Seq::empty(),
        },
        _ => Seq::empty(),
    }
}

/// A move does not look at the records gathered so far: it adds the same records, and
/// reaches the same state otherwise, whatever they are.
proof fn lemma_move_ignores_records(v: ExtractionView, r: Seq<LogView>, e: EventView)
    requires
        awaits(v, e),
    ensures
        awaits(with_records(v, r), e),
        match next_state(v, e) {
            Err(x) => next_state(with_records(v, r), e) == Err::<(ExtractionView, Step), ScrapeError>(x),
            Ok((w, s)) => w.records == v.records + added_by(v, e) && next_state(
                with_records(v, r),
                e,
            ) == Ok::<(ExtractionView, Step), ScrapeError>(
                (with_records(w, r + added_by(v, e)), s),
            ),
        },
{
    match e {
        EventView::Items(items) => {},
        _ => {
            assert(v.records + added_by(v, e) =~= v.records);
            assert(r + added_by(v, e) =~= r);
        },
    }
}

/// Extraction is idempotent: what a run of events adds to the records depends on the
/// window and the events alone, never on what was gathered before; whether the run fails
/// does not depend on it either. So a re-run over a listing that shows the same events
/// fails alike, or adds the same records in the same order.
pub proof fn lemma_rerun_same_records(v: ExtractionView, earlier: Seq<LogView>, events: Seq<EventView>)
    ensures
        run(v, events) is Err <==> run(with_records(v, earlier), events) is Err,
        run(v, events) matches Ok(a) ==> exists|added: Seq<LogView>|
            a.records == v.records + added && run(with_records(v, earlier), events) == Ok::<
                ExtractionView,
                ScrapeError,
            >(with_records(a, earlier + added)),
    decreases events.len(),
{
    let u = with_records(v, earlier);
    if events.len() == 0 {
        assert(v.records =~= v.records + Seq::<LogView>::empty());
        assert(earlier =~= earlier + Seq::<LogView>::empty());
        assert(with_records(v, earlier + Seq::<LogView>::empty()) == u);
    } else if !awaits(v, events[0]) {
        assert(!awaits(u, events[0]));
        lemma_rerun_same_records(v, earlier, events.drop_first());
    } else {
        lemma_move_ignores_records(v, earlier, events[0]);
        if let Ok((w, _)) = next_state(v, events[0]) {
            let plus = added_by(v, events[0]);
            lemma_rerun_same_records(w, earlier + plus, events.drop_first());
            assert(with_records(w, earlier + plus) == with_records(
                with_records(w, earlier + plus),
                earlier + plus,
            ));
            if let Ok(a) = run(v, events) {
                let more = choose|more: Seq<LogView>|
                    a.records == w.records + more && run(
                        with_records(w, earlier + plus),
                        events.drop_first(),
                    ) == Ok::<ExtractionView, ScrapeError>(
                        with_records(a, earlier + plus + more),
                    );
                assert(a.records =~= v.records + (plus + more));
                assert(earlier + plus + more =~= earlier + (plus + more));
            }
        }
    }
}

/// The listing runs newest first, so a group dated before the window ends the walk of
/// its year at once: no record is added, the rest of the page is not examined, and the
/// page is never turned; the next step opens the next year's listing or finishes.
pub proof fn lemma_older_group_ends_year(v: ExtractionView, t: Seq<char>)
    requires
        well_formed(v),
        v.phase is ReadingDate,
        date_in_format(t, v.date_format) matches Some(d) && date_lt(d, v.first),
    ensures
        next_state(v, EventView::DateText(t)) matches Ok((w, s)) && w.records == v.records && (
        s is OpenYear || s is Finish) && w == after_year(v).0,
{
}

/// A group dated after the window is skipped: no record is added and the scan goes on.
pub proof fn lemma_newer_group_skipped(v: ExtractionView, t: Seq<char>)
    requires
        v.phase is ReadingDate,
        date_in_format(t, v.date_format) matches Some(d) && date_lt(v.last, d),
    ensures
        next_state(v, EventView::DateText(t)) == Ok::<(ExtractionView, Step), ScrapeError>(
            after_group(v),
        ),
        after_group(v).0.records == v.records,
{
}

/// A malformed product link fails the extraction with a parse error, whatever records
/// it gathered before; a failed extraction takes no further event, so it never hands
/// out a partial list.
pub proof fn lemma_malformed_link_fails(v: ExtractionView, items: Seq<LineItemView>, k: int)
    requires
        v.phase is ReadingItems,
        0 <= k < items.len(),
        group_records(items.take(k), v.phase->ReadingItems_0) is Ok,
        regex_first_group(PRODUCT_LINK_PATTERN@, items[k].href) is None,
    ensures
        next_state(v, EventView::Items(items)) == Err::<(ExtractionView, Step), ScrapeError>(
            ScrapeError::Parse(crate::error::Field::ProductId),
        ),
        forall|e: EventView| !awaits(ExtractionView { phase: Phase::Failed, ..v }, e),
{
    let d = v.phase->ReadingItems_0;
    assert(items.take(k + 1).drop_last() =~= items.take(k));
    assert(items.take(k + 1).last() == items[k]);
    lemma_error_stays(items, k + 1, d);
    assert(items.take(k + 1) =~= items.subrange(0, k + 1));
}

} // verus!
