//! The indexer's side of the index server's protocol: which pages of the
//! index are asked for, what they add up to, and when a call has succeeded.

use vstd::hash_set::StringHashSet;
use vstd::prelude::*;
use vstd::string::*;

verus! {

/// The relative paths that the server held when the run started.
pub struct RemoteIndexSnapshot {
    paths: StringHashSet,
}

impl View for RemoteIndexSnapshot {
    type V = Set<Seq<char>>;

    closed spec fn view(&self) -> Set<Seq<char>> {
        self.paths@
    }
}

/// A page of the index, as the server sends it.
#[derive(Clone, Debug, PartialEq, Eq)]
pub struct GetIndexResponse {
    pub values: Vec<String>,
    /// Where the next page starts; `None` on the last page.
    pub next_offset: Option<String>,
}

/// A parameter of a request's query.
#[derive(Clone, Debug, PartialEq, Eq)]
pub struct QueryParam {
    pub name: String,
    pub value: String,
}

/// A request for one page of the index.
#[derive(Clone, Debug, PartialEq, Eq)]
pub struct PageRequest {
    pub url: String,
    pub query: Vec<QueryParam>,
}

/// What came back for a request.
#[derive(Clone, Debug, PartialEq, Eq)]
pub struct PageReply {
    /// The HTTP status; `None` where no response came.
    pub status: Option<u16>,
    /// The page in the body; `None` where the body holds none.
    pub page: Option<GetIndexResponse>,
}

/// The request that uploads a batch, without its body.
#[derive(Clone, Debug, PartialEq, Eq)]
pub struct UploadRequest {
    pub url: String,
    /// The value of the header `content-type`.
    pub content_type: String,
}

/// Why a call to the server failed.
#[derive(Clone, Copy, Debug, PartialEq, Eq, Structural)]
pub enum CallError {
    /// No response came.
    Transport,
    /// The response had a status other than success.
    Status(u16),
    /// The body of the response could not be read.
    Body,
}

/// The fetch of the snapshot, between two pages.
pub struct SnapshotFetch {
    url: String,
    seen: RemoteIndexSnapshot,
}

/// How the fetch goes on after a reply.
pub enum FetchStep {
    /// Another page is to be requested.
    Next { fetch: SnapshotFetch, request: PageRequest },
    /// The last page has come.
    Done(RemoteIndexSnapshot),
    /// The fetch is given up; no snapshot is made.
    Failed(CallError),
}

impl View for QueryParam {
    type V = (Seq<char>, Seq<char>);

    open spec fn view(&self) -> (Seq<char>, Seq<char>) {
        (self.name@, self.value@)
    }
}

/// The names and values that a query stands for.
pub open spec fn query_view(query: Seq<QueryParam>) -> Seq<(Seq<char>, Seq<char>)> {
    Seq::new(query.len(), |i: int| query[i]@)
}

/// The statuses from 200 to 299.
pub open spec fn is_success(status: int) -> bool {
    200 <= status <= 299
}

/// The address of the index on the server at `server_url`.
pub open spec fn index_url_of(server_url: Seq<char>) -> Seq<char> {
    server_url + "/v1/index"@
}

/// The query of a request for a page of at most 1000 paths, from `offset` on.
pub open spec fn page_query(offset: Option<Seq<char>>) -> Seq<(Seq<char>, Seq<char>)> {
    match offset {
        Some(cursor) => seq![("size"@, "1000"@), ("offset"@, cursor)],
        None => seq![("size"@, "1000"@)],
    }
}

/// The paths of a page, as a set.
pub open spec fn values_set(values: Seq<String>) -> Set<Seq<char>>
    decreases values.len(),
{
    if values.len() == 0 {
        Set::empty()
    } else {
        values_set(values.drop_last()).insert(values.last()@)
    }
}

/// Why a reply counts as failed, if it does: no response, then a status
/// other than success, then a body without a page.
pub open spec fn reply_error(reply: PageReply) -> Option<CallError> {
    match reply.status {
        None => Some(CallError::Transport),
        Some(status) => if !is_success(status as int) {
            Some(CallError::Status(status))
        } else if reply.page is None {
            Some(CallError::Body)
        } else {
            None
        },
    }
}

/// Whether a response with this status is a success.
pub fn response_succeeded(status: u16) -> (ok: bool)
    ensures
        ok == is_success(status as int),
{
    200 <= status && status <= 299
}

/// The address of the index on the server at `server_url`.
pub fn index_url(server_url: &str) -> (url: String)
    ensures
        url@ == index_url_of(server_url@),
{
    String::from_str(server_url).concat("/v1/index")
}

/// The request for the page that starts at `offset`, or for the first page.
pub fn page_request(url: &str, offset: Option<&String>) -> (request: PageRequest)
    ensures
        request.url@ == url@,
        query_view(request.query@) == page_query(
            match offset {
                Some(cursor) => Some(cursor@),
                None => None,
            },
        ),
{
    let mut query: Vec<QueryParam> = Vec::new();
    query.push(QueryParam { name: String::from_str("size"), value: String::from_str("1000") });
    match offset {
        Some(cursor) => {
            query.push(QueryParam { name: String::from_str("offset"), value: cursor.clone() });
            assert(query_view(query@) =~= page_query(Some(cursor@)));
        },
        None => {
            assert(query_view(query@) =~= page_query(None));
        },
    }
    PageRequest { url: String::from_str(url), query }
}

impl RemoteIndexSnapshot {
    /// A snapshot of an empty index.
    pub fn new() -> (snapshot: RemoteIndexSnapshot)
        ensures
            snapshot@ == Set::<Seq<char>>::empty(),
    {
        RemoteIndexSnapshot { paths: StringHashSet::new() }
    }

    /// Adds a path.
    pub fn insert(&mut self, path: String)
        ensures
            final(self)@ == old(self)@.insert(path@),
    {
        self.paths.insert(path);
    }

    /// Adds the paths of a page.
    pub fn extend(&mut self, values: &Vec<String>)
        ensures
            final(self)@ == old(self)@.union(values_set(values@)),
    {
        let mut i: usize = 0;
        assert(values@.take(0) =~= Seq::<String>::empty());
        assert(self@ =~= old(self)@.union(values_set(values@.take(0))));
        while i < values.len()
            invariant
                i <= values.len(),
                self@ == old(self)@.union(values_set(values@.take(i as int))),
            decreases values.len() - i,
        {
            assert(values@.take(i + 1).drop_last() =~= values@.take(i as int));
            assert(values@.take(i + 1).last() == values@[i as int]);
            self.paths.insert(values[i].clone());
            i += 1;
            assert(self@ =~= old(self)@.union(values_set(values@.take(i as int))));
        }
        assert(values@.take(i as int) =~= values@);
    }

    /// Whether the index held `path`.
    pub fn contains(&self, path: &str) -> (held: bool)
        ensures
            held == self@.contains(path@),
    {
        self.paths.contains(path)
    }

    /// The number of paths.
    pub fn len(&self) -> (count: usize)
        ensures
            count == self@.len(),
    {
        self.paths.len()
    }
}

impl SnapshotFetch {
    /// The address that the pages are asked from.
    pub closed spec fn url(&self) -> Seq<char> {
        self.url@
    }

    /// The paths of the pages that have come.
    pub closed spec fn seen(&self) -> Set<Seq<char>> {
        self.seen@
    }

    /// Starts a fetch from the server at `server_url`: nothing is seen yet,
    /// and the first page is to be requested.
    pub fn begin(server_url: &str) -> (started: (SnapshotFetch, PageRequest))
        ensures
            started.0.url() == index_url_of(server_url@),
            started.0.seen() == Set::<Seq<char>>::empty(),
            started.1.url@ == index_url_of(server_url@),
            query_view(started.1.query@) == page_query(None),
    {
        let url: String = index_url(server_url);
        let request: PageRequest = page_request(url.as_str(), None);
        (SnapshotFetch { url, seen: RemoteIndexSnapshot::new() }, request)
    }

    /// Takes the reply to the last request. A failed reply ends the fetch
    /// without a snapshot. A page adds its paths to those seen; the fetch
    /// goes on at the page's `next_offset`, and is done where it has none.
    pub fn step(self, reply: PageReply) -> (next: FetchStep)
        ensures
            match next {
                FetchStep::Failed(error) => reply_error(reply) == Some(error),
                FetchStep::Next { fetch, request } => {
                    &&& reply_error(reply) is None
                    &&& reply.page matches Some(page)
                    &&& page.next_offset matches Some(cursor)
                    &&& fetch.url() == self.url()
                    &&& fetch.seen() == self.seen().union(values_set(page.values@))
                    &&& request.url@ == self.url()
                    &&& query_view(request.query@) == page_query(Some(cursor@))
                },
                FetchStep::Done(snapshot) => {
                    &&& reply_error(reply) is None
                    &&& reply.page matches Some(page)
                    &&& page.next_offset is None
                    &&& snapshot@ == self.seen().union(values_set(page.values@))
                },
            },
    {
        let status: u16 = match reply.status {
            None => {
                return FetchStep::Failed(CallError::Transport);
            },
            Some(status) => status,
        };
        if !response_succeeded(status) {
            return FetchStep::Failed(CallError::Status(status));
        }
        let page: GetIndexResponse = match reply.page {
            None => {
                return FetchStep::Failed(CallError::Body);
            },
            Some(page) => page,
        };
        let mut seen: RemoteIndexSnapshot = self.seen;
        seen.extend(&page.values);
        match &page.next_offset {
            Some(cursor) => {
                let request: PageRequest = page_request(self.url.as_str(), Some(cursor));
                FetchStep::Next { fetch: SnapshotFetch { url: self.url, seen }, request }
            },
            None => FetchStep::Done(seen),
        }
    }
}

/// The request that uploads a batch to the server at `server_url`: a POST of
/// JSON to the address of the index.
pub fn upload_request(server_url: &str) -> (request: UploadRequest)
    ensures
        request.url@ == index_url_of(server_url@),
        request.content_type@ == "application/json"@,
{
    UploadRequest { url: index_url(server_url), content_type: String::from_str("application/json") }
}

/// Whether an upload succeeded, by the status of the response (`None` where
/// no response came).
pub fn upload_outcome(status: Option<u16>) -> (outcome: Result<(), CallError>)
    ensures
        outcome == match status {
            None => Err::<(), CallError>(CallError::Transport),
            Some(code) => if is_success(code as int) {
                Ok(())
            } else {
                Err(CallError::Status(code))
            },
        },
{
    match status {
        None => Err(CallError::Transport),
        Some(code) => if response_succeeded(code) {
            Ok(())
        } else {
            Err(CallError::Status(code))
        },
    }
}

/// The set of a page's paths holds a path exactly if the page lists it,
/// however often.
pub proof fn law_values_set_holds_what_is_listed(values: Seq<String>, path: Seq<char>)
    ensures
        values_set(values).contains(path) <==> exists|i: int|
            0 <= i < values.len() && (#[trigger] values[i])@ == path,
    decreases values.len(),
{
    if values.len() > 0 {
        let before = values.drop_last();
        law_values_set_holds_what_is_listed(before, path);
        if values_set(values).contains(path) {
            if values.last()@ == path {
                assert(values[values.len() - 1]@ == path);
            } else {
                let i = choose|i: int| 0 <= i < before.len() && (#[trigger] before[i])@ == path;
                assert(values[i]@ == path);
            }
        }
        if exists|i: int| 0 <= i < values.len() && (#[trigger] values[i])@ == path {
            let i = choose|i: int| 0 <= i < values.len() && (#[trigger] values[i])@ == path;
            if i < values.len() - 1 {
                assert(before[i]@ == path);
            }
        }
    }
}

} // verus!
