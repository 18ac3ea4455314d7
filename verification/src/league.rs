//! One league's pipeline as a state machine: which page to fetch next, and
//! what a fetched page leads to.
//!
//! The machine does no fetching. Its state names the page that is awaited;
//! the caller fetches that page and hands the answer back, and gets the next
//! state or the league's outcome. The first page is the one at row-page 1,
//! column-page 1; its label gives the opponent count, and with it the number
//! of pages on each side of the grid. The other pages follow left to right,
//! top to bottom. Any failure ends this league, and touches no other.

use crate::dom::{document_of, parse_document};
use crate::error::PageError;
use crate::matrix::{
    assemble_matrix, assembled, page_views, AssemblyMismatch, MatrixAssemblyError, PageRecords,
    PageResult,
};
use crate::page::{
    document_count, document_records, read_html_response_to_player_h2h, row_col_count,
    PageSelectors,
};
use crate::pagination::{pages_for_count, pages_needed};
use crate::record::{records, PlayerH2H, PlayerRecord};
use crate::text::{decimal, push_decimal};
use scraper::Html;
use vstd::prelude::*;
use vstd::string::StringExecFns;

verus! {

/// What a `LeagueError` stands for.
pub enum LeagueFailure {
    Page(PageError),
    Assembly(AssemblyMismatch),
}

/// Why a league has no matrix.
#[derive(Debug, PartialEq, Eq)]
pub enum LeagueError {
    /// A page could not be fetched or read.
    Page(PageError),
    /// The pages were read, and do not make up a matrix.
    Assembly(MatrixAssemblyError),
}

impl View for LeagueError {
    type V = LeagueFailure;

    open spec fn view(&self) -> LeagueFailure {
        match self {
            LeagueError::Page(e) => LeagueFailure::Page(*e),
            LeagueError::Assembly(e) => LeagueFailure::Assembly(e@),
        }
    }
}

/// What a `LeagueOutcome` stands for.
pub struct OutcomeView {
    pub league_id: Seq<char>,
    pub result: Result<Seq<PlayerRecord>, LeagueFailure>,
}

/// How one league ended: with its matrix, or with the error that stopped
/// it. Either way the league is named.
#[derive(Debug, PartialEq, Eq)]
pub struct LeagueOutcome {
    pub league_id: String,
    pub result: Result<Vec<PlayerH2H>, LeagueError>,
}

impl View for LeagueOutcome {
    type V = OutcomeView;

    open spec fn view(&self) -> OutcomeView {
        OutcomeView {
            league_id: self.league_id@,
            result: match self.result {
                Ok(players) => Ok(records(players@)),
                Err(e) => Err(e@),
            },
        }
    }
}

/// What a `PageReading` stands for.
pub struct ReadingView {
    pub count: Result<u16, PageError>,
    pub players: Result<Seq<PlayerRecord>, PageError>,
}

/// What one fetched document yields: the count on its label, and the
/// fragments of its head-to-head table.
#[derive(Debug, PartialEq, Eq)]
pub struct PageReading {
    pub count: Result<u16, PageError>,
    pub players: Result<Vec<PlayerH2H>, PageError>,
}

impl View for PageReading {
    type V = ReadingView;

    open spec fn view(&self) -> ReadingView {
        ReadingView {
            count: self.count,
            players: match self.players {
                Ok(players) => Ok(records(players@)),
                Err(e) => Err(e),
            },
        }
    }
}

/// What the document `doc` yields.
pub open spec fn reading_of(doc: Html) -> ReadingView {
    ReadingView { count: document_count(doc), players: document_records(doc) }
}

/// The grid that the first page's label calls for.
pub struct Plan {
    /// The number of row-pages, which is also the number of column-pages.
    pub side: nat,
    /// The number of opponent columns of the whole matrix.
    pub opponent_count: nat,
}

/// What a `LeagueFetch` stands for.
pub struct FetchState {
    pub league_id: Seq<char>,
    pub page_width: nat,
    /// `None` until the first page has been read.
    pub plan: Option<Plan>,
    /// The page that is awaited.
    pub row_page: nat,
    pub col_page: nat,
    /// The pages read so far, in the order in which they were fetched.
    pub pages: Seq<PageRecords>,
}

/// What a `LeagueStep` stands for.
pub enum StepView {
    Fetch(FetchState),
    Done(OutcomeView),
}

/// The page after `(row_page, col_page)` in a grid of `side` by `side`
/// pages, going left to right, then top to bottom; `None` after the last.
pub open spec fn next_place(row_page: nat, col_page: nat, side: nat) -> Option<(nat, nat)> {
    if col_page < side {
        Some((row_page, (col_page + 1) as nat))
    } else if row_page < side {
        Some(((row_page + 1) as nat, 1nat))
    } else {
        None
    }
}

/// The state in which a league's pipeline starts: nothing read, the first
/// page awaited.
pub open spec fn initial_state(league_id: Seq<char>, page_width: nat) -> FetchState {
    FetchState {
        league_id,
        page_width,
        plan: None,
        row_page: 1,
        col_page: 1,
        pages: Seq::empty(),
    }
}

/// The outcome of a league that `failure` stopped.
pub open spec fn failed(league_id: Seq<char>, failure: LeagueFailure) -> StepView {
    StepView::Done(OutcomeView { league_id, result: Err(failure) })
}

/// The outcome of a league whose pages are all read.
pub open spec fn finished(league_id: Seq<char>, pages: Seq<PageRecords>, plan: Plan) -> StepView {
    StepView::Done(
        OutcomeView {
            league_id,
            result: match assembled(pages, plan.side, plan.side, plan.opponent_count) {
                Ok(matrix) => Ok(matrix),
                Err(mismatch) => Err(LeagueFailure::Assembly(mismatch)),
            },
        },
    )
}

/// What the awaited page leads to, once it is fetched and read.
///
/// On the first page the label's count fixes the plan; a label that is
/// missing or unreadable stops the league. A page without a head-to-head
/// table stops the league. Else the page's fragments are kept under the
/// awaited place, and the next page of the grid is awaited; after the last
/// one the matrix is assembled.
pub open spec fn next_step(state: FetchState, reading: ReadingView) -> StepView {
    let plan: Result<Plan, PageError> = match state.plan {
        Some(plan) => Ok(plan),
        None => match reading.count {
            Ok(count) => Ok(
                Plan {
                    side: pages_needed(count as nat, state.page_width),
                    opponent_count: count as nat,
                },
            ),
            Err(e) => Err(e),
        },
    };
    match plan {
        Err(e) => failed(state.league_id, LeagueFailure::Page(e)),
        Ok(plan) => match reading.players {
            Err(e) => failed(state.league_id, LeagueFailure::Page(e)),
            Ok(players) => {
                let pages = state.pages.push(
                    PageRecords {
                        row_page: state.row_page as int,
                        col_page: state.col_page as int,
                        players,
                    },
                );
                match next_place(state.row_page, state.col_page, plan.side) {
                    Some((row_page, col_page)) => StepView::Fetch(
                        FetchState {
                            league_id: state.league_id,
                            page_width: state.page_width,
                            plan: Some(plan),
                            row_page,
                            col_page,
                            pages,
                        },
                    ),
                    None => finished(state.league_id, pages, plan),
                }
            },
        },
    }
}

/// The place of the page that is fetched after `k` others, in a grid of
/// `side` by `side` pages.
pub open spec fn place_at(k: int, side: nat) -> (int, int)
    recommends
        side > 0,
{
    (k / (side as int) + 1, k % (side as int) + 1)
}

/// Whether each of `pages` is tagged with the place at which it was fetched.
pub open spec fn pages_in_grid_order(pages: Seq<PageRecords>, side: nat) -> bool {
    forall|k: int|
        0 <= k < pages.len() ==> (#[trigger] pages[k]).row_page == place_at(k, side).0
            && pages[k].col_page == place_at(k, side).1
}

/// Whether `state` holds the pages that precede the awaited one in the grid,
/// each under its own place, and nothing else.
pub open spec fn in_grid_order(state: FetchState) -> bool {
    match state.plan {
        None => state.row_page == 1 && state.col_page == 1 && state.pages.len() == 0,
        Some(plan) => {
            &&& 1 <= state.row_page <= plan.side
            &&& 1 <= state.col_page <= plan.side
            &&& state.pages.len() == (state.row_page - 1) * plan.side + (state.col_page - 1)
            &&& pages_in_grid_order(state.pages, plan.side)
        },
    }
}

/// The plan that holds once `reading` has been taken in `state`.
pub open spec fn plan_after(state: FetchState, reading: ReadingView) -> Option<Plan> {
    match state.plan {
        Some(plan) => Some(plan),
        None => match reading.count {
            Ok(count) => Some(
                Plan {
                    side: pages_needed(count as nat, state.page_width),
                    opponent_count: count as nat,
                },
            ),
            Err(_) => None,
        },
    }
}

/// The pages that are held once `reading` has been taken in `state`.
pub open spec fn pages_after(state: FetchState, players: Seq<PlayerRecord>) -> Seq<PageRecords> {
    state.pages.push(
        PageRecords { row_page: state.row_page as int, col_page: state.col_page as int, players },
    )
}

/// The pipeline starts in grid order.
pub proof fn lemma_initial_state_in_grid_order(league_id: Seq<char>, page_width: nat)
    ensures
        in_grid_order(initial_state(league_id, page_width)),
{
}

/// The place of the page that is awaited is the place at which it is fetched.
proof fn lemma_awaited_place(row_page: nat, col_page: nat, side: nat)
    requires
        1 <= row_page <= side,
        1 <= col_page <= side,
    ensures
        place_at((row_page - 1) * side + (col_page - 1), side) == (row_page as int, col_page as int),
{
    vstd::arithmetic::div_mod::lemma_fundamental_div_mod_converse(
        (row_page - 1) * side + (col_page - 1),
        side as int,
        row_page - 1,
        col_page - 1,
    );
}

/// Pages are fetched in the order of the grid, left to right and top to
/// bottom, one at a time: a step that asks for another page leaves the
/// pipeline in grid order, with one page more.
pub proof fn lemma_step_keeps_grid_order(state: FetchState, reading: ReadingView)
    requires
        in_grid_order(state),
    ensures
        next_step(state, reading) matches StepView::Fetch(next) ==> {
            &&& in_grid_order(next)
            &&& next.league_id == state.league_id
            &&& next.page_width == state.page_width
            &&& next.plan == plan_after(state, reading)
            &&& reading.players matches Ok(players) && next.pages == pages_after(state, players)
        },
{
    if let StepView::Fetch(next) = next_step(state, reading) {
        let plan = plan_after(state, reading)->0;
        let side = plan.side;
        let players = reading.players->Ok_0;
        assert(1 <= state.row_page <= side && 1 <= state.col_page <= side);
        if state.plan is None {
            assert((state.row_page - 1) * side == 0) by (nonlinear_arith)
                requires
                    state.row_page == 1,
            ;
        }
        lemma_awaited_place(state.row_page, state.col_page, side);
        assert forall|k: int| 0 <= k < next.pages.len() implies (
        #[trigger] next.pages[k]).row_page == place_at(k, side).0 && next.pages[k].col_page
            == place_at(k, side).1 by {
            if k < state.pages.len() {
                assert(next.pages[k] == state.pages[k]);
            }
        }
        if state.col_page >= side {
            assert((state.row_page + 1 - 1) * side == (state.row_page - 1) * side + side)
                by (nonlinear_arith);
        }
    }
}

/// When the last page has been taken, the pages that are assembled are
/// those of the whole grid, each under its own place: none is missing, and
/// none stands twice.
pub proof fn lemma_last_step_holds_whole_grid(state: FetchState, reading: ReadingView)
    requires
        in_grid_order(state),
        next_step(state, reading) is Done,
        plan_after(state, reading) matches Some(plan) && plan.side >= 1,
        reading.players is Ok,
    ensures
        ({
            let plan = plan_after(state, reading)->0;
            let pages = pages_after(state, reading.players->Ok_0);
            &&& next_step(state, reading) == finished(state.league_id, pages, plan)
            &&& pages.len() == plan.side * plan.side
            &&& pages_in_grid_order(pages, plan.side)
        }),
{
    let plan = plan_after(state, reading)->0;
    let side = plan.side;
    let pages = pages_after(state, reading.players->Ok_0);
    assert(state.row_page == side && state.col_page == side);
    if state.plan is None {
        assert((state.row_page - 1) * side == 0) by (nonlinear_arith)
            requires
                state.row_page == 1,
        ;
    }
    lemma_awaited_place(state.row_page, state.col_page, side);
    assert forall|k: int| 0 <= k < pages.len() implies (#[trigger] pages[k]).row_page == place_at(
        k,
        side,
    ).0 && pages[k].col_page == place_at(k, side).1 by {
        if k < state.pages.len() {
            assert(pages[k] == state.pages[k]);
        }
    }
    assert((side - 1) * side + (side - 1) + 1 == side * side) by (nonlinear_arith);
}

/// The address of one page of a league's head-to-head grid.
pub open spec fn page_url(league_id: Seq<char>, page_width: nat, row_page: nat, col_page: nat) -> Seq<
    char,
> {
    "https://braacket.com/league/comelee/head2head/"@ + league_id + "?rows="@ + decimal(page_width)
        + "&cols="@ + decimal(page_width) + "&page="@ + decimal(row_page) + "&page_cols="@
        + decimal(col_page) + "&data=result&game_character=&country=&search="@
}

/// Writes the address of one page of a league's head-to-head grid.
pub fn build_page_url(league_id: &str, page_width: u16, row_page: u16, col_page: u16) -> (url:
    String)
    ensures
        url@ == page_url(league_id@, page_width as nat, row_page as nat, col_page as nat),
{
    let mut url = String::from_str("https://braacket.com/league/comelee/head2head/");
    url.append(league_id);
    url.append("?rows=");
    push_decimal(&mut url, page_width);
    url.append("&cols=");
    push_decimal(&mut url, page_width);
    url.append("&page=");
    push_decimal(&mut url, row_page);
    url.append("&page_cols=");
    push_decimal(&mut url, col_page);
    url.append("&data=result&game_character=&country=&search=");
    url
}

/// Reads the label's count and the head-to-head table of `html_doc`.
pub fn read_page(html_doc: Html, selectors: &PageSelectors) -> (reading: PageReading)
    ensures
        reading@ == reading_of(html_doc),
{
    let count = row_col_count(&html_doc, selectors);
    let players = read_html_response_to_player_h2h(html_doc, selectors);
    PageReading { count, players }
}

/// A league's pipeline between two fetches: what has been read, and which
/// page is awaited.
pub struct LeagueFetch {
    league_id: String,
    page_width: u16,
    plan: Option<(u16, u16)>,
    row_page: u16,
    col_page: u16,
    pages: Vec<PageResult>,
}

/// What the caller is to do next: fetch the page that the state awaits, or
/// take the league's outcome.
pub enum LeagueStep {
    Fetch(LeagueFetch),
    Done(LeagueOutcome),
}

impl View for LeagueFetch {
    type V = FetchState;

    closed spec fn view(&self) -> FetchState {
        FetchState {
            league_id: self.league_id@,
            page_width: self.page_width as nat,
            plan: match self.plan {
                Some((side, opponent_count)) => Some(
                    Plan { side: side as nat, opponent_count: opponent_count as nat },
                ),
                None => None,
            },
            row_page: self.row_page as nat,
            col_page: self.col_page as nat,
            pages: page_views(self.pages@),
        }
    }
}

impl View for LeagueStep {
    type V = StepView;

    open spec fn view(&self) -> StepView {
        match self {
            LeagueStep::Fetch(state) => StepView::Fetch(state@),
            LeagueStep::Done(outcome) => StepView::Done(outcome@),
        }
    }
}

impl LeagueFetch {
    #[verifier::type_invariant]
    spec fn width_is_positive(&self) -> bool {
        self.page_width > 0
    }

    /// The pipeline of league `league_id`, before its first fetch.
    pub fn start(league_id: String, page_width: u16) -> (state: LeagueFetch)
        requires
            page_width > 0,
        ensures
            state@ == initial_state(league_id@, page_width as nat),
    {
        let state = LeagueFetch {
            league_id,
            page_width,
            plan: None,
            row_page: 1,
            col_page: 1,
            pages: Vec::new(),
        };
        assert(state@.pages =~= Seq::empty());
        state
    }

    /// The place in the grid of the page that is awaited.
    pub fn awaited(&self) -> (place: (u16, u16))
        ensures
            place.0 == self@.row_page,
            place.1 == self@.col_page,
    {
        (self.row_page, self.col_page)
    }

    /// The address of the page that is awaited.
    pub fn url(&self) -> (url: String)
        ensures
            url@ == page_url(
                self@.league_id,
                self@.page_width,
                self@.row_page,
                self@.col_page,
            ),
    {
        build_page_url(self.league_id.as_str(), self.page_width, self.row_page, self.col_page)
    }

    /// The awaited page could not be fetched: the league ends with `error`.
    pub fn on_failure(self, error: PageError) -> (step: LeagueStep)
        ensures
            step@ == failed(self@.league_id, LeagueFailure::Page(error)),
    {
        LeagueStep::Done(
            LeagueOutcome { league_id: self.league_id, result: Err(LeagueError::Page(error)) },
        )
    }

    /// The awaited page was fetched and read: takes what it yields.
    pub fn on_reading(self, reading: PageReading) -> (step: LeagueStep)
        ensures
            step@ == next_step(self@, reading@),
    {
        proof {
            use_type_invariant(&self);
        }
        let ghost state = self@;
        let LeagueFetch { league_id, page_width, plan, row_page, col_page, pages } = self;
        let mut pages = pages;
        let (side, opponent_count) = match plan {
            Some(plan) => plan,
            None => match reading.count {
                Ok(count) => (pages_for_count(count, page_width), count),
                Err(e) => {
                    return LeagueStep::Done(
                        LeagueOutcome { league_id, result: Err(LeagueError::Page(e)) },
                    );
                },
            },
        };
        let players = match reading.players {
            Ok(players) => players,
            Err(e) => {
                return LeagueStep::Done(
                    LeagueOutcome { league_id, result: Err(LeagueError::Page(e)) },
                );
            },
        };
        let page = PageResult { row_page, col_page, players };
        let ghost held = pages@;
        pages.push(page);
        assert(page_views(pages@) == page_views(held).push(page@));
        if col_page < side {
            LeagueStep::Fetch(
                LeagueFetch {
                    league_id,
                    page_width,
                    plan: Some((side, opponent_count)),
                    row_page,
                    col_page: col_page + 1,
                    pages,
                },
            )
        } else if row_page < side {
            LeagueStep::Fetch(
                LeagueFetch {
                    league_id,
                    page_width,
                    plan: Some((side, opponent_count)),
                    row_page: row_page + 1,
                    col_page: 1,
                    pages,
                },
            )
        } else {
            let result = match assemble_matrix(&pages, side, side, opponent_count) {
                Ok(matrix) => Ok(matrix),
                Err(e) => Err(LeagueError::Assembly(e)),
            };
            LeagueStep::Done(LeagueOutcome { league_id, result })
        }
    }

    /// The awaited page was fetched as the document `html_doc`: reads it,
    /// and takes what it yields.
    pub fn on_document(self, html_doc: Html, selectors: &PageSelectors) -> (step: LeagueStep)
        ensures
            step@ == next_step(self@, reading_of(html_doc)),
    {
        let reading = read_page(html_doc, selectors);
        self.on_reading(reading)
    }

    /// The awaited page was fetched with the body `body`: parses it, reads
    /// it, and takes what it yields.
    pub fn on_body(self, body: &str, selectors: &PageSelectors) -> (step: LeagueStep)
        ensures
            step@ == next_step(self@, reading_of(document_of(body@))),
    {
        self.on_document(parse_document(body), selectors)
    }
}

} // verus!
