//! Fetching one remote collection page by page.
//!
//! The library decides which page to ask for and what to make of each
//! answer; the caller performs the requests. A fetch starts at offset 0
//! and goes on, one page of [`PAGE_SIZE`] records at a time, for as long as
//! the last page announced more. The first failure ends it, and nothing of
//! what was fetched before is handed out.

use vstd::prelude::*;
use vstd::string::*;
use crate::text::{decimal, decimal_string, join, joined};
use crate::v2::api::{PagerDutyObjects, PagerDutyResponseWrapper};

verus! {

/// The number of records asked for with each page.
pub const PAGE_SIZE: u32 = 100;

/// Why a fetch failed.
#[derive(Debug, Clone, Copy, PartialEq, Eq, Structural)]
pub enum FetchError {
    /// A request could not be sent or its answer not be received.
    Transport,
    /// An answer was not of the expected shape.
    Decode,
}

/// What became of one request.
pub enum PageOutcome {
    /// The answer, decoded.
    Decoded(PagerDutyResponseWrapper),
    /// The request could not be sent or its answer not be received.
    TransportFailed,
    /// The answer was not of the expected shape.
    DecodeFailed,
}

/// One GET request: where it goes, its query parameters and its headers.
#[derive(Debug, Clone, PartialEq, Eq)]
pub struct PageRequest {
    pub url: String,
    pub query: Vec<(String, String)>,
    pub headers: Vec<(String, String)>,
}

/// What a [`PageRequest`] holds.
pub struct RequestView {
    pub url: Seq<char>,
    pub query: Seq<(Seq<char>, Seq<char>)>,
    pub headers: Seq<(Seq<char>, Seq<char>)>,
}

impl DeepView for PageRequest {
    type V = RequestView;

    open spec fn deep_view(&self) -> RequestView {
        RequestView {
            url: self.url@,
            query: self.query.deep_view(),
            headers: self.headers.deep_view(),
        }
    }
}

/// The state of a fetch between two requests.
pub struct FetchView {
    pub url: Seq<char>,
    pub includes: Seq<Seq<char>>,
    pub auth_token: Seq<char>,
    /// The offsets still to be asked for; the last one is asked for next.
    pub poll_queue: Seq<u32>,
    /// The pages received, in the order in which they came.
    pub pages: Seq<PagerDutyObjects>,
    pub failure: Option<FetchError>,
}

impl FetchView {
    /// The state before the first request.
    pub open spec fn start(url: Seq<char>, includes: Seq<Seq<char>>, auth_token: Seq<char>) -> FetchView {
        FetchView {
            url,
            includes,
            auth_token,
            poll_queue: seq![0u32],
            pages: Seq::empty(),
            failure: None,
        }
    }

    /// The request for the page at `offset`.
    pub open spec fn request(self, offset: u32) -> RequestView {
        RequestView {
            url: self.url,
            query: seq![
                ("include[]"@, joined(self.includes, ","@)),
                ("sort_by"@, "name"@),
                ("limit"@, decimal(PAGE_SIZE as nat)),
                ("offset"@, decimal(offset as nat)),
            ],
            headers: seq![
                ("Accept"@, "application/vnd.pagerduty+json;version=2"@),
                ("Authorization"@, "Token token="@ + self.auth_token),
            ],
        }
    }

    /// Whether there is a request to make.
    pub open spec fn wants_page(self) -> bool {
        self.failure is None && self.poll_queue.len() > 0
    }

    /// The state while the request for the last queued offset is under way.
    pub open spec fn asked(self) -> FetchView {
        FetchView { poll_queue: self.poll_queue.drop_last(), ..self }
    }

    /// What the fetch comes to, once there is no request to make.
    pub open spec fn result(self) -> Result<Seq<PagerDutyObjects>, FetchError> {
        match self.failure {
            Some(error) => Err(error),
            None => Ok(self.pages),
        }
    }

    /// The state after the request for the page at `offset` ended with
    /// `outcome`.
    ///
    /// A decoded page is kept, and where it announces more the next offset
    /// is queued. A page that announces more when no further offset can be
    /// asked for is taken as not decodable.
    pub open spec fn recorded(self, offset: u32, outcome: PageOutcome) -> FetchView {
        match outcome {
            PageOutcome::Decoded(page) => {
                if !page.more {
                    FetchView { pages: self.pages.push(page.obj), ..self }
                } else if offset + PAGE_SIZE <= u32::MAX {
                    FetchView {
                        pages: self.pages.push(page.obj),
                        poll_queue: self.poll_queue.push((offset + PAGE_SIZE) as u32),
                        ..self
                    }
                } else {
                    FetchView { failure: Some(FetchError::Decode), ..self }
                }
            },
            PageOutcome::TransportFailed => FetchView {
                failure: Some(FetchError::Transport),
                ..self
            },
            PageOutcome::DecodeFailed => FetchView { failure: Some(FetchError::Decode), ..self },
        }
    }
}

impl FetchView {
    /// The fetch keeps pace: at most one offset is queued, and it is the
    /// page size times the number of pages received.
    pub open spec fn paced(self) -> bool {
        &&& self.poll_queue.len() <= 1
        &&& self.poll_queue.len() == 1 ==> self.poll_queue[0] == PAGE_SIZE * self.pages.len()
    }
}

/// A fetch keeps pace from its start on: it asks for the offsets 0, 100,
/// 200 and so on, one after the other, each once.
pub proof fn lemma_fetch_keeps_pace(state: FetchView, outcome: PageOutcome)
    requires
        state.paced(),
        state.wants_page(),
    ensures
        FetchView::start(state.url, state.includes, state.auth_token).paced(),
        state.asked().recorded(state.poll_queue.last(), outcome).paced(),
{
}

/// A failure is final: once a request has failed, no further page is
/// asked for, and the fetch comes to that failure whatever was received
/// before.
pub proof fn lemma_failure_is_final(state: FetchView, offset: u32)
    ensures
        !state.recorded(offset, PageOutcome::TransportFailed).wants_page(),
        state.recorded(offset, PageOutcome::TransportFailed).result() == Err::<
            Seq<PagerDutyObjects>,
            FetchError,
        >(FetchError::Transport),
        !state.recorded(offset, PageOutcome::DecodeFailed).wants_page(),
        state.recorded(offset, PageOutcome::DecodeFailed).result() == Err::<
            Seq<PagerDutyObjects>,
            FetchError,
        >(FetchError::Decode),
{
}

impl FetchView {
    /// The state after the requests were answered with `outcomes`, one
    /// after the other, for as long as there was a request to make.
    pub open spec fn after(self, outcomes: Seq<PageOutcome>) -> FetchView
        decreases outcomes.len(),
    {
        if outcomes.len() == 0 || !self.wants_page() {
            self
        } else {
            self.asked().recorded(self.poll_queue.last(), outcomes[0]).after(outcomes.drop_first())
        }
    }
}

/// Whether every outcome is a decoded page, and every page but the last
/// announces more.
pub open spec fn is_full_run(outcomes: Seq<PageOutcome>) -> bool {
    &&& outcomes.len() > 0
    &&& forall|i: int|
        0 <= i < outcomes.len() ==> (#[trigger] outcomes[i] matches PageOutcome::Decoded(page)
            && page.more == (i < outcomes.len() - 1))
}

/// The pages of the outcomes, in order. An outcome that is no page counts
/// for nothing.
pub open spec fn pages_of(outcomes: Seq<PageOutcome>) -> Seq<PagerDutyObjects>
    decreases outcomes.len(),
{
    if outcomes.len() == 0 {
        Seq::empty()
    } else {
        match outcomes[0] {
            PageOutcome::Decoded(page) => seq![page.obj] + pages_of(outcomes.drop_first()),
            _ => pages_of(outcomes.drop_first()),
        }
    }
}

/// A fetch whose requests are all answered with a page, of which all but
/// the last announce more, comes to exactly those pages, in the order in
/// which they came, and asks for nothing after the last.
pub proof fn lemma_full_run(state: FetchView, outcomes: Seq<PageOutcome>)
    requires
        state.paced(),
        state.wants_page(),
        is_full_run(outcomes),
        PAGE_SIZE * (state.pages.len() + outcomes.len()) <= u32::MAX,
    ensures
        !state.after(outcomes).wants_page(),
        state.after(outcomes).result() == Ok::<Seq<PagerDutyObjects>, FetchError>(
            state.pages + pages_of(outcomes),
        ),
    decreases outcomes.len(),
{
    let rest = outcomes.drop_first();
    let next = state.asked().recorded(state.poll_queue.last(), outcomes[0]);
    assert(outcomes[0] is Decoded);
    let first = outcomes[0]->Decoded_0;
    assert(state.asked().poll_queue =~= Seq::empty());
    if outcomes.len() == 1 {
        assert(!first.more);
        assert(next.poll_queue.len() == 0);
        assert(rest.len() == 0);
        assert(next.after(rest) == next);
        assert(pages_of(rest) =~= Seq::empty());
        assert(state.pages + pages_of(outcomes) =~= next.pages);
    } else {
        assert(first.more);
        assert(next.poll_queue =~= seq![(state.poll_queue.last() + PAGE_SIZE) as u32]);
        assert forall|i: int| 0 <= i < rest.len() implies (#[trigger] rest[i] matches PageOutcome::Decoded(
            page,
        ) && page.more == (i < rest.len() - 1)) by {
            assert(rest[i] == outcomes[i + 1]);
        }
        lemma_full_run(next, rest);
        assert(state.pages + pages_of(outcomes) =~= next.pages + pages_of(rest));
    }
}

/// A fetch in which a request fails comes to that failure, whatever was
/// answered before and whatever would have been answered after.
pub proof fn lemma_failed_run(state: FetchView, outcomes: Seq<PageOutcome>, failed: int)
    requires
        state.paced(),
        state.wants_page(),
        0 <= failed < outcomes.len(),
        !(outcomes[failed] is Decoded),
        forall|i: int|
            0 <= i < failed ==> (#[trigger] outcomes[i] matches PageOutcome::Decoded(page)
                && page.more),
        PAGE_SIZE * (state.pages.len() + failed) <= u32::MAX,
    ensures
        !state.after(outcomes).wants_page(),
        state.after(outcomes).result() == Err::<Seq<PagerDutyObjects>, FetchError>(
            if outcomes[failed] is TransportFailed {
                FetchError::Transport
            } else {
                FetchError::Decode
            },
        ),
    decreases failed,
{
    let rest = outcomes.drop_first();
    let next = state.asked().recorded(state.poll_queue.last(), outcomes[0]);
    assert(state.asked().poll_queue =~= Seq::empty());
    if failed == 0 {
        assert(!next.wants_page());
        assert(next.after(rest) == next);
    } else {
        assert(outcomes[0] is Decoded);
        let first = outcomes[0]->Decoded_0;
        assert(first.more);
        assert(next.poll_queue =~= seq![(state.poll_queue.last() + PAGE_SIZE) as u32]);
        assert(rest[failed - 1] == outcomes[failed]);
        assert forall|i: int| 0 <= i < failed - 1 implies (#[trigger] rest[i] matches PageOutcome::Decoded(
            page,
        ) && page.more) by {
            assert(rest[i] == outcomes[i + 1]);
        }
        lemma_failed_run(next, rest, failed - 1);
    }
}

/// A fetch between two requests.
pub struct PageFetch {
    url: String,
    includes: Vec<String>,
    auth_token: String,
    poll_queue: Vec<u32>,
    response_array: Vec<PagerDutyObjects>,
    failure: Option<FetchError>,
}

impl View for PageFetch {
    type V = FetchView;

    closed spec fn view(&self) -> FetchView {
        FetchView {
            url: self.url@,
            includes: self.includes.deep_view(),
            auth_token: self.auth_token@,
            poll_queue: self.poll_queue@,
            pages: self.response_array@,
            failure: self.failure,
        }
    }
}

/// A fetch while one request is under way.
pub struct AwaitingPage {
    fetch: PageFetch,
    offset: u32,
}

impl AwaitingPage {
    /// The state of the fetch without the offset that was asked for.
    pub closed spec fn fetch(&self) -> FetchView {
        self.fetch@
    }

    /// The offset that was asked for.
    pub closed spec fn offset(&self) -> u32 {
        self.offset
    }

    /// Takes note of what became of the request.
    pub fn record(self, outcome: PageOutcome) -> (fetch: PageFetch)
        ensures
            fetch@ == self.fetch().recorded(self.offset(), outcome),
    {
        let mut fetch = self.fetch;
        match outcome {
            PageOutcome::Decoded(page) => {
                if !page.more {
                    fetch.response_array.push(page.obj);
                } else {
                    match self.offset.checked_add(PAGE_SIZE) {
                        Some(next) => {
                            fetch.response_array.push(page.obj);
                            fetch.poll_queue.push(next);
                        },
                        None => {
                            fetch.failure = Some(FetchError::Decode);
                        },
                    }
                }
            },
            PageOutcome::TransportFailed => {
                fetch.failure = Some(FetchError::Transport);
            },
            PageOutcome::DecodeFailed => {
                fetch.failure = Some(FetchError::Decode);
            },
        }
        fetch
    }
}

/// What a fetch needs next.
pub enum FetchStep {
    /// A request to perform; its outcome goes to `waiting`.
    Request { request: PageRequest, waiting: AwaitingPage },
    /// Nothing: the fetch has ended, with all pages or with the failure.
    Finished(Result<Vec<PagerDutyObjects>, FetchError>),
}

impl PageFetch {
    /// A fetch of the collection at `url` that has not asked for anything
    /// yet.
    pub fn new(url: &str, includes: &Vec<String>, auth_token: &str) -> (fetch: PageFetch)
        ensures
            fetch@ == FetchView::start(url@, includes.deep_view(), auth_token@),
    {
        let mut copied: Vec<String> = Vec::new();
        let mut i: usize = 0;
        while i < includes.len()
            invariant
                i <= includes.len(),
                copied.deep_view() == includes.deep_view().take(i as int),
            decreases includes.len() - i,
        {
            let ghost before = copied.deep_view();
            copied.push(includes[i].clone());
            proof {
                let all = includes.deep_view();
                assert(copied.deep_view() =~= before.push(all[i as int]));
                assert(all.take(i + 1) =~= all.take(i as int).push(all[i as int]));
            }
            i += 1;
        }
        proof {
            assert(includes.deep_view().take(i as int) =~= includes.deep_view());
        }
        let mut poll_queue: Vec<u32> = Vec::new();
        poll_queue.push(0);
        let fetch = PageFetch {
            url: String::from_str(url),
            includes: copied,
            auth_token: String::from_str(auth_token),
            poll_queue,
            response_array: Vec::new(),
            failure: None,
        };
        proof {
            assert(fetch@.poll_queue =~= seq![0u32]);
            assert(fetch@.pages =~= Seq::empty());
        }
        fetch
    }

    fn request(&self, offset: u32) -> (request: PageRequest)
        ensures
            request.deep_view() == self@.request(offset),
    {
        let mut query: Vec<(String, String)> = Vec::new();
        query.push((String::from_str("include[]"), join(&self.includes, ",")));
        query.push((String::from_str("sort_by"), String::from_str("name")));
        query.push((String::from_str("limit"), decimal_string(PAGE_SIZE)));
        query.push((String::from_str("offset"), decimal_string(offset)));
        let mut authorization = String::from_str("Token token=");
        authorization.append(self.auth_token.as_str());
        let mut headers: Vec<(String, String)> = Vec::new();
        headers.push(
            (
                String::from_str("Accept"),
                String::from_str("application/vnd.pagerduty+json;version=2"),
            ),
        );
        headers.push((String::from_str("Authorization"), authorization));
        let request = PageRequest { url: self.url.clone(), query, headers };
        proof {
            assert(request.deep_view().query =~= self@.request(offset).query);
            assert(request.deep_view().headers =~= self@.request(offset).headers);
        }
        request
    }

    /// What the fetch needs next: the request for the last queued offset,
    /// or nothing more, and then it hands out what it came to.
    pub fn next(self) -> (step: FetchStep)
        ensures
            self@.wants_page() ==> (step matches FetchStep::Request { request, waiting }
                && request.deep_view() == self@.request(self@.poll_queue.last()) && waiting.fetch()
                == self@.asked() && waiting.offset() == self@.poll_queue.last()),
            !self@.wants_page() ==> (step matches FetchStep::Finished(result) && match result {
                Ok(pages) => self@.result() == Ok::<Seq<PagerDutyObjects>, FetchError>(pages@),
                Err(error) => self@.result() == Err::<Seq<PagerDutyObjects>, FetchError>(error),
            }),
    {
        let mut fetch = self;
        match fetch.failure {
            Some(error) => {
                return FetchStep::Finished(Err(error));
            },
            None => {},
        }
        match fetch.poll_queue.pop() {
            Some(offset) => {
                let request = fetch.request(offset);
                FetchStep::Request { request, waiting: AwaitingPage { fetch, offset } }
            },
            None => FetchStep::Finished(Ok(fetch.response_array)),
        }
    }
}

} // verus!
