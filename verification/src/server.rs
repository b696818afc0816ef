//! The answers of the HTTP interface, and the buffer of recent hits.

use crate::breakpoints::{BreakpointView, Breakpoints, CreateError};
use crate::cache::ResolvedAddress;
use crate::expression::MapsError;
use crate::hit::{Hit, HitModel};
use crate::maps::MapRegion;
use crate::processes::ProcessView;
use crate::{breakpoints, expression, number, text};
use std::collections::VecDeque;
use vstd::prelude::*;

verus! {

// ---------------------------------------------------------------------------
// Recent hits
// ---------------------------------------------------------------------------

/// How many hits are shown where no other number is asked for.
pub const DEFAULT_HITS: usize = 100;

/// The most recent hits, up to a limit, the oldest one first.
#[derive(Debug)]
pub struct HitBuffer {
    limit: usize,
    hits: VecDeque<Hit>,
}

/// The last `n` elements of `s`, or all of them.
pub open spec fn last_of<T>(s: Seq<T>, n: nat) -> Seq<T> {
    if s.len() > n {
        s.skip(s.len() - n)
    } else {
        s
    }
}

/// What a sequence of hits says.
pub open spec fn hit_models(hits: Seq<Hit>) -> Seq<HitModel> {
    hits.map_values(|h: Hit| h@)
}

/// What a `HitBuffer` says.
#[verifier::ext_equal]
pub struct HitBufferModel {
    pub limit: usize,
    pub hits: Seq<Hit>,
}

impl View for HitBuffer {
    type V = HitBufferModel;

    closed spec fn view(&self) -> HitBufferModel {
        HitBufferModel { limit: self.limit, hits: self.hits@ }
    }
}

/// The buffer once it got a hit: the oldest ones make room for it. A buffer
/// for no hits stays as it is.
pub open spec fn after_hit(buffer: HitBufferModel, hit: Hit) -> HitBufferModel {
    if buffer.limit == 0 {
        buffer
    } else {
        HitBufferModel {
            limit: buffer.limit,
            hits: last_of(buffer.hits.push(hit), buffer.limit as nat),
        }
    }
}

impl HitBuffer {
    /// An empty buffer that holds up to `limit` hits.
    pub fn new(limit: usize) -> (buffer: Self)
        ensures
            buffer@ == (HitBufferModel { limit, hits: seq![] }),
    {
        HitBuffer { limit, hits: VecDeque::new() }
    }

    /// Adds a hit. The oldest ones make room for it. A buffer for no hits
    /// stays as it is.
    pub fn push_hit(&mut self, hit: Hit)
        ensures
            final(self)@ == after_hit(old(self)@, hit),
    {
        if self.limit > 0 {
            let ghost before = self.hits@;
            while self.hits.len() >= self.limit
                invariant
                    self.limit > 0,
                    self.limit == old(self).limit,
                    self.hits@ == last_of(before, self.hits@.len()),
                    self.hits@.len() <= before.len(),
                    before.len() < self.limit ==> self.hits@ == before,
                    before.len() >= self.limit ==> self.hits@.len() >= self.limit - 1,
                decreases self.hits@.len(),
            {
                self.hits.pop_front();
                assert(self.hits@ =~= last_of(before, self.hits@.len()));
            }
            self.hits.push_back(hit);
            assert(self.hits@ =~= last_of(before.push(hit), self.limit as nat));
        }
    }

    /// Copies of the last hits, as many as `limit` says.
    pub fn recent(&self, limit: Option<usize>) -> (hits: Vec<Hit>)
        ensures
            hit_models(hits@) == last_of(
                hit_models(self@.hits),
                match limit {
                    Some(limit) => limit as nat,
                    None => DEFAULT_HITS as nat,
                },
            ),
    {
        let limit: usize = match limit {
            Some(limit) => limit,
            None => DEFAULT_HITS,
        };
        let total: usize = self.hits.len();
        let start: usize = if total > limit {
            total - limit
        } else {
            0
        };
        let mut hits: Vec<Hit> = Vec::new();
        let mut i: usize = start;
        while i < total
            invariant
                start <= i <= total,
                total == self.hits@.len(),
                hits@.len() == i - start,
                forall|j: int| 0 <= j < hits@.len() ==> #[trigger] hits@[j]@ == self.hits@[start + j]@,
            decreases total - i,
        {
            hits.push(self.hits[i].clone());
            i = i + 1;
        }
        assert(hit_models(hits@) =~= last_of(hit_models(self@.hits), limit as nat));
        hits
    }
}

/// The time of a hit or a breakpoint in milliseconds, given the time that has
/// passed since the epoch. A clock that stands before the epoch counts as 0.
pub fn now_ms(since_epoch: Option<u128>) -> (ms: u128)
    ensures
        ms == match since_epoch {
            Some(ms) => ms,
            None => 0,
        },
{
    match since_epoch {
        Some(ms) => ms,
        None => 0,
    }
}

// ---------------------------------------------------------------------------
// Answers
// ---------------------------------------------------------------------------

/// The status of an answer.
#[derive(Debug, Clone, Copy, PartialEq, Eq, Structural)]
pub enum Status {
    Done,
    Created,
    NoContent,
    BadRequest,
    NotFound,
    InternalServerError,
}

/// The number of a status in HTTP.
pub open spec fn status_code(status: Status) -> u16 {
    match status {
        Status::Done => 200,
        Status::Created => 201,
        Status::NoContent => 204,
        Status::BadRequest => 400,
        Status::NotFound => 404,
        Status::InternalServerError => 500,
    }
}

impl Status {
    /// The number of the status in HTTP.
    pub fn code(self) -> (code: u16)
        ensures
            code == status_code(self),
    {
        match self {
            Status::Done => 200,
            Status::Created => 201,
            Status::NoContent => 204,
            Status::BadRequest => 400,
            Status::NotFound => 404,
            Status::InternalServerError => 500,
        }
    }
}

/// An answer: a value, nothing but a status, or an error with its message.
#[derive(Debug)]
pub enum Reply<T> {
    Value(Status, T),
    Empty(Status),
    Error(Status, String),
}

/// The answer to a request that failed.
pub fn error_response<T>(status: Status, error: String) -> (reply: Reply<T>)
    ensures
        reply == Reply::<T>::Error(status, error),
{
    Reply::Error(status, error)
}

/// The answer to a request for breakpoints whose lock is poisoned.
pub fn breakpoints_poisoned<T>() -> (reply: Reply<T>)
    ensures
        reply matches Reply::Error(status, error) && status == Status::InternalServerError && error@
            == "breakpoint lock poisoned"@,
{
    error_response(Status::InternalServerError, "breakpoint lock poisoned".to_owned())
}

/// The answer to a request for hits whose lock is poisoned.
pub fn hits_poisoned<T>() -> (reply: Reply<T>)
    ensures
        reply matches Reply::Error(status, error) && status == Status::InternalServerError && error@
            == "hit buffer lock poisoned"@,
{
    error_response(Status::InternalServerError, "hit buffer lock poisoned".to_owned())
}

/// The answer to a request to make a breakpoint.
pub fn create_breakpoint(made: Result<BreakpointView, CreateError>) -> (reply: Reply<
    BreakpointView,
>)
    ensures
        match made {
            Ok(view) => reply == Reply::Value(Status::Created, view),
            Err(e) => reply matches Reply::Error(status, error) && status == Status::BadRequest
                && error@ == breakpoints::create_error_text(e@),
        },
{
    match made {
        Ok(view) => Reply::Value(Status::Created, view),
        Err(e) => error_response(Status::BadRequest, e.message()),
    }
}

/// The answer to a request for the breakpoints.
pub fn list_breakpoints<W>(held: &Breakpoints<W>) -> (reply: Reply<Vec<BreakpointView>>)
    requires
        held.wf(),
    ensures
        reply matches Reply::Value(status, views) && status == Status::Done && breakpoints::lists(
            breakpoints::breakpoint_models(views@),
            held@,
        ),
{
    Reply::Value(Status::Done, held.list())
}

/// What is said of a breakpoint that does not exist.
pub open spec fn not_found_text(id: u64) -> Seq<char> {
    "breakpoint "@ + number::decimal_text(id as nat) + " not found"@
}

/// The answer to a request to remove a breakpoint, and the watch that is to
/// be stopped.
pub fn delete_breakpoint<W>(held: &mut Breakpoints<W>, id: u64) -> (answer: (Reply<()>, Option<W>))
    requires
        old(held).wf(),
    ensures
        final(held).wf(),
        final(held)@ == old(held)@.remove(id),
        if old(held)@.contains_key(id) {
            answer.0 == Reply::<()>::Empty(Status::NoContent) && answer.1 == Some(
                old(held)@[id].1,
            )
        } else {
            &&& answer.0 matches Reply::Error(status, error)
            &&& status == Status::NotFound
            &&& error@ == not_found_text(id)
            &&& answer.1 is None
        },
{
    match held.remove(id) {
        Some(watch) => (Reply::Empty(Status::NoContent), Some(watch)),
        None => {
            let mut error = text::concat("breakpoint ", number::format_decimal(id).as_str());
            error.append(" not found");
            (error_response(Status::NotFound, error), None)
        },
    }
}

/// The answer to a request for the last hits.
pub fn get_hits(buffer: &HitBuffer, limit: Option<usize>) -> (reply: Reply<Vec<Hit>>)
    ensures
        reply matches Reply::Value(status, hits) && status == Status::Done && hit_models(hits@)
            == last_of(
            hit_models(buffer@.hits),
            match limit {
                Some(limit) => limit as nat,
                None => DEFAULT_HITS as nat,
            },
        ),
{
    Reply::Value(Status::Done, buffer.recent(limit))
}

/// The answer to a request for the processes, which fails if `/proc` could not
/// be read.
pub fn list_processes(found: Result<Vec<ProcessView>, String>) -> (reply: Reply<Vec<ProcessView>>)
    ensures
        reply == match found {
            Ok(processes) => Reply::Value(Status::Done, processes),
            Err(reason) => Reply::Error(Status::InternalServerError, reason),
        },
{
    match found {
        Ok(processes) => Reply::Value(Status::Done, processes),
        Err(reason) => error_response(Status::InternalServerError, reason),
    }
}

/// The answer to a request for the regions of a process.
pub fn list_maps(listed: Result<Vec<MapRegion>, MapsError>) -> (reply: Reply<Vec<MapRegion>>)
    ensures
        match listed {
            Ok(regions) => reply == Reply::Value(Status::Done, regions),
            Err(e) => reply matches Reply::Error(status, error) && status == Status::BadRequest
                && error@ == expression::error_text(e@),
        },
{
    match listed {
        Ok(regions) => Reply::Value(Status::Done, regions),
        Err(e) => error_response(Status::BadRequest, e.message()),
    }
}

/// The answer to a request to resolve an address.
pub fn resolve_address(resolved: Result<ResolvedAddress, MapsError>) -> (reply: Reply<
    ResolvedAddress,
>)
    ensures
        match resolved {
            Ok(resolved) => reply == Reply::Value(Status::Done, resolved),
            Err(e) => reply matches Reply::Error(status, error) && status == Status::BadRequest
                && error@ == expression::error_text(e@),
        },
{
    match resolved {
        Ok(resolved) => Reply::Value(Status::Done, resolved),
        Err(e) => error_response(Status::BadRequest, e.message()),
    }
}

// ---------------------------------------------------------------------------
// Requests from other origins
// ---------------------------------------------------------------------------

/// Whether a request with the given method is answered at once, with no
/// content, instead of being handled.
pub fn answered_at_once(method: &str) -> (at_once: bool)
    ensures
        at_once == (method@ == "OPTIONS"@),
{
    let given = text::chars_of(method);
    let options = text::chars_of("OPTIONS");
    text::same_chars(given.as_slice(), options.as_slice())
}

/// The headers, by name and value, that every answer gets.
pub fn cors_headers() -> (headers: Vec<(&'static str, &'static str)>)
    ensures
        headers@ == seq![
            ("access-control-allow-origin", "*"),
            ("access-control-allow-methods", "GET,POST,DELETE,OPTIONS"),
            ("access-control-allow-headers", "content-type,accept"),
        ],
{
    let mut headers: Vec<(&'static str, &'static str)> = Vec::new();
    headers.push(("access-control-allow-origin", "*"));
    headers.push(("access-control-allow-methods", "GET,POST,DELETE,OPTIONS"));
    headers.push(("access-control-allow-headers", "content-type,accept"));
    headers
}

// ---------------------------------------------------------------------------
// Laws
// ---------------------------------------------------------------------------

/// A buffer for up to `limit` hits that was empty and then got the hits
/// `pushed`, in order.
pub open spec fn buffered(limit: usize, pushed: Seq<Hit>) -> HitBufferModel
    decreases pushed.len(),
{
    if pushed.len() == 0 {
        HitBufferModel { limit, hits: seq![] }
    } else {
        after_hit(buffered(limit, pushed.drop_last()), pushed.last())
    }
}

/// A buffer holds the last hits it got, in the order in which it got them, and
/// never more than its limit.
pub proof fn law_buffer_holds_the_last(limit: usize, pushed: Seq<Hit>)
    ensures
        buffered(limit, pushed) == (HitBufferModel { limit, hits: last_of(pushed, limit as nat) }),
        buffered(limit, pushed).hits.len() <= limit,
    decreases pushed.len(),
{
    if pushed.len() == 0 {
        assert(last_of(pushed, limit as nat) =~= seq![]);
    } else {
        law_buffer_holds_the_last(limit, pushed.drop_last());
        assert(buffered(limit, pushed).hits =~= last_of(pushed, limit as nat));
    }
}

/// Asking for more hits never hides one: what a smaller limit shows is the end
/// of what a larger one shows.
pub proof fn law_larger_limit_shows_more<T>(hits: Seq<T>, small: nat, large: nat)
    requires
        small <= large,
    ensures
        last_of(hits, small).is_suffix_of(last_of(hits, large)),
        last_of(last_of(hits, large), small) == last_of(hits, small),
{
    let a = last_of(hits, small);
    let b = last_of(hits, large);
    assert(b.subrange(b.len() - a.len(), b.len() as int) =~= a);
    assert(last_of(b, small) =~= a);
}

/// A hit that a buffer gets is its last one. The hits before it stay in order,
/// as many of the last ones as there is room for, and a buffer for no hits
/// gets none.
pub proof fn law_hit_is_the_last(buffer: &mut HitBuffer, hit: Hit)
    requires
        call_ensures(HitBuffer::push_hit, (buffer, hit), ()),
        old(buffer)@.hits.len() <= old(buffer)@.limit,
    ensures
        final(buffer)@.limit == old(buffer)@.limit,
        ({
            let before = old(buffer)@.hits;
            let after = final(buffer)@.hits;
            let limit = old(buffer)@.limit;
            &&& after.len() == if before.len() < limit {
                before.len() + 1
            } else {
                limit as nat
            }
            &&& limit > 0 ==> after[after.len() - 1] == hit
            &&& forall|i: int|
                0 <= i < after.len() - 1 ==> #[trigger] after[i] == before[before.len() + 1
                    - after.len() + i]
        }),
{
}

/// A new buffer is empty and has the limit that was asked for.
pub proof fn law_new_buffer(limit: usize, buffer: HitBuffer)
    requires
        call_ensures(HitBuffer::new, (limit,), buffer),
    ensures
        buffer@.limit == limit,
        buffer@.hits.len() == 0,
{
}

/// A request for hits shows the last ones in order, as many as it asks for, a
/// hundred if it does not say, and all if there are no more.
pub proof fn law_last_hits_are_shown(
    buffer: &HitBuffer,
    limit: Option<usize>,
    reply: Reply<Vec<Hit>>,
)
    requires
        call_ensures(get_hits, (buffer, limit), reply),
    ensures
        reply is Value,
        reply->Value_0 == Status::Done,
        ({
            let hits = reply->Value_1@;
            let all = buffer@.hits;
            let wanted: nat = if limit is Some {
                limit->0 as nat
            } else {
                100
            };
            &&& hits.len() == if all.len() < wanted {
                all.len()
            } else {
                wanted
            }
            &&& forall|i: int|
                0 <= i < hits.len() ==> (#[trigger] hits[i])@ == all[all.len() - hits.len() + i]@
        }),
{
    let hits = reply->Value_1@;
    let all = buffer@.hits;
    let shown = hit_models(hits);
    let models = hit_models(all);
    assert(shown.len() == hits.len() && models.len() == all.len());
    assert forall|i: int| 0 <= i < hits.len() implies (#[trigger] hits[i])@ == all[all.len()
        - hits.len() + i]@ by {
        assert(shown[i] == hits[i]@);
        assert(models[all.len() - hits.len() + i] == all[all.len() - hits.len() + i]@);
    }
}

/// The statuses have the numbers that HTTP gives them.
pub proof fn law_status_numbers(status: Status, code: u16)
    requires
        call_ensures(Status::code, (status,), code),
    ensures
        status == Status::Done ==> code == 200,
        status == Status::Created ==> code == 201,
        status == Status::NoContent ==> code == 204,
        status == Status::BadRequest ==> code == 400,
        status == Status::NotFound ==> code == 404,
        status == Status::InternalServerError ==> code == 500,
{
}

/// A breakpoint that was made is answered as created, and one that was not as
/// a bad request, with the message of the error.
pub proof fn law_answer_to_creation(
    made: Result<BreakpointView, CreateError>,
    reply: Reply<BreakpointView>,
    message: String,
)
    requires
        call_ensures(create_breakpoint, (made,), reply),
        made matches Err(e) ==> call_ensures(CreateError::message, (&e,), message),
    ensures
        match (made, reply) {
            (Ok(view), Reply::Value(status, given)) => status == Status::Created && given == view,
            (Err(_), Reply::Error(status, error)) => status == Status::BadRequest && error@
                == message@,
            _ => false,
        },
{
}

/// A request for the breakpoints is answered with the list of them.
pub proof fn law_answer_to_listing<W>(
    held: &Breakpoints<W>,
    reply: Reply<Vec<BreakpointView>>,
    views: Vec<BreakpointView>,
)
    requires
        call_ensures(list_breakpoints::<W>, (held,), reply),
        call_ensures(Breakpoints::<W>::list, (held,), views),
    ensures
        reply is Value,
        reply->Value_0 == Status::Done,
        reply->Value_1@.len() == views@.len(),
        forall|i: int|
            0 <= i < views@.len() ==> (#[trigger] views@[i])@ == reply->Value_1@[i]@,
{
    let given = breakpoints::breakpoint_models(reply->Value_1@);
    let models = breakpoints::breakpoint_models(views@);
    breakpoints::law_listing_is_unique(given, models, held@);
    assert(given.len() == reply->Value_1@.len() && models.len() == views@.len());
    assert forall|i: int| 0 <= i < views@.len() implies (#[trigger] views@[i])@
        == reply->Value_1@[i]@ by {
        assert(given[i] == models[i]);
    }
}

/// A request to remove a breakpoint takes away that one and no other. It is
/// answered with no content and has the watch stopped, or, if there is no such
/// breakpoint, is answered so.
pub proof fn law_answer_to_removal<W>(
    held: &mut Breakpoints<W>,
    id: u64,
    answer: (Reply<()>, Option<W>),
    other: u64,
)
    requires
        call_ensures(delete_breakpoint::<W>, (held, id), answer),
    ensures
        !final(held)@.contains_key(id),
        other != id ==> (final(held)@.contains_key(other) <==> old(held)@.contains_key(other))
            && (old(held)@.contains_key(other) ==> final(held)@[other] == old(held)@[other]),
        old(held)@.contains_key(id) ==> answer.0 == Reply::<()>::Empty(Status::NoContent)
            && answer.1 == Some(old(held)@[id].1),
        !old(held)@.contains_key(id) ==> answer.1 is None && answer.0 is Error
            && answer.0->Error_0 == Status::NotFound && answer.0->Error_1@ == "breakpoint "@
            + number::decimal_text(id as nat) + " not found"@,
{
}

/// What could not be had is answered with the message of the error, as a bad
/// request where the process or the expression is at fault, and as an error of
/// the server where `/proc` is.
pub proof fn law_answers_to_questions(
    found: Result<Vec<ProcessView>, String>,
    listed: Result<Vec<MapRegion>, MapsError>,
    resolved: Result<ResolvedAddress, MapsError>,
    of_found: Reply<Vec<ProcessView>>,
    of_listed: Reply<Vec<MapRegion>>,
    of_resolved: Reply<ResolvedAddress>,
)
    requires
        call_ensures(list_processes, (found,), of_found),
        call_ensures(list_maps, (listed,), of_listed),
        call_ensures(resolve_address, (resolved,), of_resolved),
    ensures
        match (found, of_found) {
            (Ok(processes), Reply::Value(status, given)) => status == Status::Done && given
                == processes,
            (Err(reason), Reply::Error(status, error)) => status == Status::InternalServerError
                && error@ == reason@,
            _ => false,
        },
        match (listed, of_listed) {
            (Ok(regions), Reply::Value(status, given)) => status == Status::Done && given
                == regions,
            (Err(e), Reply::Error(status, error)) => status == Status::BadRequest && error@
                == expression::error_text(e@),
            _ => false,
        },
        match (resolved, of_resolved) {
            (Ok(address), Reply::Value(status, given)) => status == Status::Done && given
                == address,
            (Err(e), Reply::Error(status, error)) => status == Status::BadRequest && error@
                == expression::error_text(e@),
            _ => false,
        },
{
}

/// A poisoned lock is answered as an error of the server that says which one.
pub proof fn law_answers_to_poison<T>(breakpoints: Reply<T>, hits: Reply<T>)
    requires
        call_ensures(breakpoints_poisoned::<T>, (), breakpoints),
        call_ensures(hits_poisoned::<T>, (), hits),
    ensures
        breakpoints is Error && breakpoints->Error_0 == Status::InternalServerError
            && breakpoints->Error_1@ == "breakpoint lock poisoned"@,
        hits is Error && hits->Error_0 == Status::InternalServerError && hits->Error_1@
            == "hit buffer lock poisoned"@,
{
}

/// A page of any origin may use the interface: a request that only asks for
/// leave is answered at once, and every answer gives leave.
pub proof fn law_other_origins(
    method: &str,
    at_once: bool,
    headers: Vec<(&'static str, &'static str)>,
)
    requires
        call_ensures(answered_at_once, (method,), at_once),
        call_ensures(cors_headers, (), headers),
    ensures
        at_once <==> method@ == seq!['O', 'P', 'T', 'I', 'O', 'N', 'S'],
        headers@.len() == 3,
        headers@[0] == ("access-control-allow-origin", "*"),
        headers@[1] == ("access-control-allow-methods", "GET,POST,DELETE,OPTIONS"),
        headers@[2] == ("access-control-allow-headers", "content-type,accept"),
{
    reveal_strlit("OPTIONS");
    assert("OPTIONS"@ =~= seq!['O', 'P', 'T', 'I', 'O', 'N', 'S']);
}

/// The time is what has passed since the epoch, and 0 before it.
pub proof fn law_time(since_epoch: Option<u128>, ms: u128)
    requires
        call_ensures(now_ms, (since_epoch,), ms),
    ensures
        since_epoch is Some ==> ms == since_epoch->0,
        since_epoch is None ==> ms == 0,
{
}

} // verus!
