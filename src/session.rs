//! The callback state machine: it turns the transport's callbacks into an
//! ordered stream of session events for a caller-supplied handler, frames
//! and parses the header blocks on the way, and keeps the first failure.
use vstd::prelude::*;
use crate::connect::{connect_address_of, parse_connect_address, SocketAddress};
use crate::error::{Error, OtherError};
use crate::message::{
    ends_blank_line, field_block_of, request_head_of, request_result, response_head_of,
    response_result, scan_header_boundary, trailer_result, RequestHeader, ResponseHeader,
    ResponseTrailer,
};
use crate::text::{lossy_text_of, text_from_utf8_lossy};

verus! {

broadcast use vstd::seq_lib::group_seq_properties;

/// Whether a session frames HTTP header blocks or only relays FTP bytes.
#[derive(Debug, Clone, Copy, PartialEq, Eq, Structural)]
pub enum SessionMode {
    Http,
    Ftp,
}

/// Where a session stands in its exchange.
#[derive(Debug, Clone, Copy, PartialEq, Eq, Structural)]
pub enum CallbackState {
    /// Gathering the outgoing request head.
    HttpRequest,
    /// Gathering the incoming response head.
    HttpResponse,
    /// Gathering the fields that follow the response body.
    HttpResponseTrailer,
    /// All three blocks have been parsed.
    Finished,
    /// An FTP session, which frames nothing.
    Ftp,
}

/// What a diagnostic callback carries.
#[derive(Debug, Clone, Copy, PartialEq, Eq, Structural)]
pub enum InfoKind {
    Text,
    HeaderIn,
    HeaderOut,
    DataIn,
    DataOut,
    SslDataIn,
    SslDataOut,
}

/// An event of a session, handed to the handler. The byte slices borrow
/// the transport's buffers and live only as long as the callback.
#[derive(Debug)]
pub enum SessionEvent<'a> {
    Connected(SocketAddress),
    HeaderReceived(&'a [u8]),
    HeaderSent(&'a [u8]),
    BodyReceived(&'a [u8]),
    BodySent(&'a [u8]),
    ContentSent(&'a [u8]),
    ContentReceived(&'a [u8]),
    HttpRequest(&'a [u8], RequestHeader),
    HttpResponse(&'a [u8], ResponseHeader),
    HttpResponseTrailer(&'a [u8], ResponseTrailer),
    Progress { download_total: u64, download_current: u64, upload_total: u64, upload_current: u64 },
}

/// The kind of a session event, for reasoning about their order.
#[derive(Debug, Clone, Copy, PartialEq, Eq, Structural)]
pub enum EventKind {
    Connected,
    HeaderReceived,
    HeaderSent,
    BodyReceived,
    BodySent,
    ContentSent,
    ContentReceived,
    HttpRequest,
    HttpResponse,
    HttpResponseTrailer,
    Progress,
}

/// What an event handed to the handler carries: its kind and its content.
pub ghost enum EventView {
    Connected(SocketAddress),
    HeaderReceived(Seq<u8>),
    HeaderSent(Seq<u8>),
    BodyReceived(Seq<u8>),
    BodySent(Seq<u8>),
    ContentSent(Seq<u8>),
    ContentReceived(Seq<u8>),
    HttpRequest(Seq<u8>, RequestHeader),
    HttpResponse(Seq<u8>, ResponseHeader),
    HttpResponseTrailer(Seq<u8>, ResponseTrailer),
    Progress(u64, u64, u64, u64),
}

pub open spec fn view_of(e: SessionEvent) -> EventView {
    match e {
        SessionEvent::Connected(a) => EventView::Connected(a),
        SessionEvent::HeaderReceived(d) => EventView::HeaderReceived(d@),
        SessionEvent::HeaderSent(d) => EventView::HeaderSent(d@),
        SessionEvent::BodyReceived(d) => EventView::BodyReceived(d@),
        SessionEvent::BodySent(d) => EventView::BodySent(d@),
        SessionEvent::ContentSent(d) => EventView::ContentSent(d@),
        SessionEvent::ContentReceived(d) => EventView::ContentReceived(d@),
        SessionEvent::HttpRequest(d, h) => EventView::HttpRequest(d@, h),
        SessionEvent::HttpResponse(d, h) => EventView::HttpResponse(d@, h),
        SessionEvent::HttpResponseTrailer(d, t) => EventView::HttpResponseTrailer(d@, t),
        SessionEvent::Progress { download_total, download_current, upload_total, upload_current } =>
            EventView::Progress(download_total, download_current, upload_total, upload_current),
    }
}

pub open spec fn view_kind(v: EventView) -> EventKind {
    match v {
        EventView::Connected(_) => EventKind::Connected,
        EventView::HeaderReceived(_) => EventKind::HeaderReceived,
        EventView::HeaderSent(_) => EventKind::HeaderSent,
        EventView::BodyReceived(_) => EventKind::BodyReceived,
        EventView::BodySent(_) => EventKind::BodySent,
        EventView::ContentSent(_) => EventKind::ContentSent,
        EventView::ContentReceived(_) => EventKind::ContentReceived,
        EventView::HttpRequest(..) => EventKind::HttpRequest,
        EventView::HttpResponse(..) => EventKind::HttpResponse,
        EventView::HttpResponseTrailer(..) => EventKind::HttpResponseTrailer,
        EventView::Progress(..) => EventKind::Progress,
    }
}

/// The kinds of the events of a trace.
pub open spec fn kinds(t: Seq<EventView>) -> Seq<EventKind> {
    t.map_values(|v: EventView| view_kind(v))
}

/// Whether `k` reports a parsed header block.
pub open spec fn is_parse_kind(k: EventKind) -> bool {
    k == EventKind::HttpRequest || k == EventKind::HttpResponse || k
        == EventKind::HttpResponseTrailer
}

/// The parse events of a trace, in order.
pub open spec fn parse_kinds(t: Seq<EventKind>) -> Seq<EventKind>
    decreases t.len(),
{
    if t.len() == 0 {
        seq![]
    } else if is_parse_kind(t.last()) {
        parse_kinds(t.drop_last()).push(t.last())
    } else {
        parse_kinds(t.drop_last())
    }
}

/// The parse events that a session in state `s` has delivered.
pub open spec fn expected_parses(s: CallbackState) -> Seq<EventKind> {
    match s {
        CallbackState::HttpRequest | CallbackState::Ftp => seq![],
        CallbackState::HttpResponse => seq![EventKind::HttpRequest],
        CallbackState::HttpResponseTrailer => seq![EventKind::HttpRequest, EventKind::HttpResponse],
        CallbackState::Finished => seq![
            EventKind::HttpRequest,
            EventKind::HttpResponse,
            EventKind::HttpResponseTrailer,
        ],
    }
}

/// Whether the event at `i` of `t`, if it is a parse event, comes right
/// after the raw header event that completed its block.
pub open spec fn raw_before(t: Seq<EventKind>, i: int) -> bool {
    &&& t[i] == EventKind::HttpRequest ==> i > 0 && t[i - 1] == EventKind::HeaderSent
    &&& (t[i] == EventKind::HttpResponse || t[i] == EventKind::HttpResponseTrailer) ==> i > 0
        && t[i - 1] == EventKind::HeaderReceived
}

/// Whether each parse event in `t` comes right after the raw header event
/// that completed its block.
#[verifier::opaque]
pub open spec fn parses_follow_raw(t: Seq<EventKind>) -> bool {
    forall|i: int| 0 <= i < t.len() ==> #[trigger] raw_before(t, i)
}

/// Whether trace `t` is in order for a session in state `s`.
#[verifier::opaque]
pub open spec fn well_ordered(t: Seq<EventKind>, s: CallbackState) -> bool {
    parse_kinds(t) == expected_parses(s) && parses_follow_raw(t)
}

/// The state after the block that `s` gathers has been parsed.
pub open spec fn next_state(s: CallbackState) -> CallbackState {
    match s {
        CallbackState::HttpRequest => CallbackState::HttpResponse,
        CallbackState::HttpResponse => CallbackState::HttpResponseTrailer,
        CallbackState::HttpResponseTrailer => CallbackState::Finished,
        _ => s,
    }
}

/// Whether a session in state `s` gathers a header block.
pub open spec fn gathers(s: CallbackState) -> bool {
    s == CallbackState::HttpRequest || s == CallbackState::HttpResponse || s
        == CallbackState::HttpResponseTrailer
}

/// Whether a session in state `s` gathers incoming header bytes.
pub open spec fn collects_response(s: CallbackState) -> bool {
    s == CallbackState::HttpResponse || s == CallbackState::HttpResponseTrailer
}

/// Whether `d` holds a complete header block.
pub open spec fn has_boundary(d: Seq<u8>) -> bool {
    exists|e: int| ends_blank_line(d, e)
}

/// Whether the complete block `b` parses as what state `s` gathers.
pub open spec fn parses(s: CallbackState, b: Seq<u8>) -> bool {
    match s {
        CallbackState::HttpRequest => request_head_of(b) matches Some(Some(_)),
        CallbackState::HttpResponse => response_head_of(b) matches Some(Some(_)),
        _ => field_block_of(b) matches Some(Some(_)),
    }
}

/// Whether `v` reports the block `b`, completed by `data`, parsed as what
/// state `s` gathers.
pub open spec fn parse_event(s: CallbackState, data: Seq<u8>, b: Seq<u8>, v: EventView) -> bool {
    match s {
        CallbackState::HttpRequest => v matches EventView::HttpRequest(d, h) && d == data
            && request_result(request_head_of(b), Ok(h)),
        CallbackState::HttpResponse => v matches EventView::HttpResponse(d, h) && d == data
            && response_result(response_head_of(b), Ok(h)),
        _ => v matches EventView::HttpResponseTrailer(d, t) && d == data && trailer_result(
            field_block_of(b),
            Ok(t),
        ),
    }
}

/// One step of gathering a header block in state `s`: `data` joins the
/// gathered bytes `buf`, after the raw event has made the trace `t`. An
/// incomplete block is kept; a complete one is emptied out and, when it
/// parses, reported and the state moves on.
pub open spec fn block_step(
    s: CallbackState,
    buf: Seq<u8>,
    data: Seq<u8>,
    t: Seq<EventView>,
    s2: CallbackState,
    buf2: Seq<u8>,
    t2: Seq<EventView>,
) -> bool {
    let b = buf + data;
    if !has_boundary(b) {
        s2 == s && buf2 == b && t2 == t
    } else if parses(s, b) {
        &&& s2 == next_state(s)
        &&& buf2.len() == 0
        &&& t2.len() == t.len() + 1
        &&& t2.drop_last() == t
        &&& parse_event(s, data, b, t2.last())
    } else {
        s2 == s && buf2.len() == 0 && t2 == t
    }
}

/// A result with its value dropped.
pub open spec fn unit_of(r: Result<usize, Error>) -> Result<(), Error> {
    match r {
        Ok(_) => Ok(()),
        Err(e) => Err(e),
    }
}

/// One request for upload content: the handler's answer `u`, with `buf` the
/// buffer after it. A failure of the handler is the result. An answer
/// longer than the buffer is a failure. Otherwise the bytes it wrote are
/// reported, and the result is the count, or the handler's failure on that
/// event. `flag` is the abort flag after the last handler call.
pub open spec fn upload_step(
    u: UploadOutcome,
    buf: Seq<u8>,
    t: Seq<EventView>,
    os: Seq<(Result<(), Error>, bool)>,
    t2: Seq<EventView>,
    os2: Seq<(Result<(), Error>, bool)>,
    flag: bool,
    r: Result<usize, Error>,
) -> bool {
    match u.0 {
        Err(e) => t2 == t && os2 == os && flag == u.1 && r == Err::<usize, Error>(e),
        Ok(n) => if n > buf.len() {
            t2 == t && os2 == os && flag == u.1 && r is Err
        } else {
            &&& t2 == t.push(EventView::ContentSent(buf.take(n as int)))
            &&& os2.len() == os.len() + 1
            &&& os2.drop_last() == os
            &&& flag == os2.last().1
            &&& r == match os2.last().0 {
                Ok(()) => Ok::<usize, Error>(n),
                Err(e) => Err(e),
            }
        },
    }
}

/// The error kept after `outcome`, when `kept` was kept before: the first
/// failure wins.
pub open spec fn captured(kept: Option<Error>, outcome: Result<(), Error>) -> Option<Error> {
    match kept {
        Some(e) => Some(e),
        None => match outcome {
            Ok(()) => None,
            Err(e) => Some(e),
        },
    }
}

/// The result of a session whose kept error is `kept` and whose transport
/// call returned `transport`: a handler or parse failure comes first.
pub open spec fn session_result(kept: Option<Error>, transport: Result<(), Error>) -> Result<
    (),
    Error,
> {
    match kept {
        Some(e) => Err(e),
        None => transport,
    }
}

/// The control that a handler uses to stop a session.
pub trait SessionControl {
    fn abort(&mut self);
}

/// The session's control: a flag that, once set, tells the transport to
/// stop.
#[derive(Debug)]
pub struct CurlSessionControl {
    aborted: bool,
}

impl CurlSessionControl {
    pub closed spec fn spec_aborted(&self) -> bool {
        self.aborted
    }

    pub fn new() -> (r: CurlSessionControl)
        ensures
            !r.spec_aborted(),
    {
        CurlSessionControl { aborted: false }
    }

    pub fn is_aborted(&self) -> (r: bool)
        ensures
            r == self.spec_aborted(),
    {
        self.aborted
    }
}

impl SessionControl for CurlSessionControl {
    fn abort(&mut self) {
        self.aborted = true;
    }
}

/// What a session hands its events to. Implemented by callers.
pub trait SessionHandler {
    /// Fills `buf` with upload content and says how many bytes it wrote;
    /// fewer than `buf.len()` ends the upload.
    /// By default there is nothing to upload.
    fn upload_content(&mut self, control: &mut CurlSessionControl, buf: &mut [u8]) -> Result<
        usize,
        Error,
    > {
        Ok(0)
    }

    /// Takes one event; a failure aborts the session. By default every
    /// event is accepted.
    fn event(&mut self, control: &mut CurlSessionControl, event: SessionEvent) -> Result<(), Error> {
        Ok(())
    }
}


/// What framing a piece of header bytes gave.
#[derive(Debug)]
pub enum Framed {
    /// The block is not complete yet.
    Pending,
    Request(RequestHeader),
    Response(ResponseHeader),
    Trailer(ResponseTrailer),
    /// The block was complete but did not parse.
    Failed(Error),
}

/// Whether `r` is what framing gives in state `s` for the gathered bytes
/// `b`, once they hold a complete block.
pub open spec fn framed_block(s: CallbackState, b: Seq<u8>, r: Framed) -> bool {
    match s {
        CallbackState::HttpRequest => match r {
            Framed::Request(h) => request_result(request_head_of(b), Ok(h)),
            Framed::Failed(e) => request_result(request_head_of(b), Err(e)),
            _ => false,
        },
        CallbackState::HttpResponse => match r {
            Framed::Response(h) => response_result(response_head_of(b), Ok(h)),
            Framed::Failed(e) => response_result(response_head_of(b), Err(e)),
            _ => false,
        },
        _ => match r {
            Framed::Trailer(t) => trailer_result(field_block_of(b), Ok(t)),
            Framed::Failed(e) => trailer_result(field_block_of(b), Err(e)),
            _ => false,
        },
    }
}

/// Appends `data` to `buf`.
fn append_bytes(buf: &mut Vec<u8>, data: &[u8])
    ensures
        final(buf)@ == old(buf)@ + data@,
{
    let mut i: usize = 0;
    while i < data.len()
        invariant
            i <= data@.len(),
            buf@ == old(buf)@ + data@.take(i as int),
        decreases data@.len() - i,
    {
        buf.push(data[i]);
        assert(data@.take(i + 1) =~= data@.take(i as int).push(data@[i as int]));
        i += 1;
    }
    assert(data@.take(data@.len() as int) =~= data@);
}

/// Adds `data` to the header block gathered in `buf` and, once the block is
/// complete, parses it as what state `state` gathers and empties `buf`.
pub fn frame_header_bytes(state: CallbackState, buf: &mut Vec<u8>, data: &[u8]) -> (r: Framed)
    requires
        gathers(state),
    ensures
        !has_boundary(old(buf)@ + data@) ==> r is Pending && final(buf)@ == old(buf)@ + data@,
        has_boundary(old(buf)@ + data@) ==> final(buf)@.len() == 0 && framed_block(
            state,
            old(buf)@ + data@,
            r,
        ),
{
    append_bytes(buf, data);
    match scan_header_boundary(buf.as_slice()) {
        None => Framed::Pending,
        Some(_) => {
            let framed = match state {
                CallbackState::HttpRequest => match RequestHeader::parse(buf.as_slice()) {
                    Ok(h) => Framed::Request(h),
                    Err(e) => Framed::Failed(e),
                },
                CallbackState::HttpResponse => match ResponseHeader::parse(buf.as_slice()) {
                    Ok(h) => Framed::Response(h),
                    Err(e) => Framed::Failed(e),
                },
                _ => match ResponseTrailer::parse(buf.as_slice()) {
                    Ok(t) => Framed::Trailer(t),
                    Err(e) => Framed::Failed(e),
                },
            };
            buf.clear();
            framed
        },
    }
}

/// What one call of the handler's `event` came to: its result, and whether
/// the control's abort flag was set when it returned.
pub type Outcome = (Result<(), Error>, bool);

/// What one call of the handler's `upload_content` came to: its result, and
/// whether the control's abort flag was set when it returned.
pub type UploadOutcome = (Result<usize, Error>, bool);

/// The abort flag after the handler calls `outs`, starting from `before`.
pub open spec fn flag_after(before: bool, outs: Seq<Outcome>) -> bool {
    if outs.len() == 0 {
        before
    } else {
        outs.last().1
    }
}

/// Whether `e` is how a complete block `b` failed to parse in state `s`.
pub open spec fn block_failed(s: CallbackState, b: Seq<u8>, e: Error) -> bool {
    match s {
        CallbackState::HttpRequest => request_result(request_head_of(b), Err(e)),
        CallbackState::HttpResponse => response_result(response_head_of(b), Err(e)),
        _ => trailer_result(field_block_of(b), Err(e)),
    }
}

/// One header callback, from events `t`, handler outcomes `os`, state `s`
/// and gathered bytes `buf` to `t2`, `os2`, `s2`, `buf2` and the result `r`.
/// The raw event `raw` goes first; if the handler fails on it, that failure
/// is the result and nothing else happens. Otherwise, when `collects`, the
/// bytes are framed as `block_step` says, and the result is the handler's
/// outcome on the parse event, the parse failure, or success.
pub open spec fn header_step(
    collects: bool,
    s: CallbackState,
    buf: Seq<u8>,
    data: Seq<u8>,
    raw: EventView,
    t: Seq<EventView>,
    os: Seq<Outcome>,
    s2: CallbackState,
    buf2: Seq<u8>,
    t2: Seq<EventView>,
    os2: Seq<Outcome>,
    r: Result<(), Error>,
) -> bool {
    let b = buf + data;
    &&& os2.len() > os.len()
    &&& os2.take(os.len() as int) == os
    &&& t2.len() > t.len()
    &&& t2[t.len() as int] == raw
    &&& if os2[os.len() as int].0 is Err {
        &&& s2 == s && buf2 == buf && t2 == t.push(raw)
        &&& os2.len() == os.len() + 1
        &&& r == os2[os.len() as int].0
    } else if !collects {
        &&& s2 == s && buf2 == buf && t2 == t.push(raw)
        &&& os2.len() == os.len() + 1
        &&& r is Ok
    } else {
        &&& block_step(s, buf, data, t.push(raw), s2, buf2, t2)
        &&& if !has_boundary(b) {
            os2.len() == os.len() + 1 && r is Ok
        } else if parses(s, b) {
            os2.len() == os.len() + 2 && r == os2.last().0
        } else {
            os2.len() == os.len() + 1 && (r matches Err(e) && block_failed(s, b, e))
        }
    }
}

/// One session's callback state: the handler, the control flag, where the
/// exchange stands, the first failure, and the header bytes gathered so far.
pub struct CallbackHandler<H: SessionHandler> {
    handler: H,
    control: CurlSessionControl,
    state: CallbackState,
    error: Option<Error>,
    receive_buf: Vec<u8>,
    send_buf: Vec<u8>,
    trace: Ghost<Seq<EventView>>,
    outcomes: Ghost<Seq<Outcome>>,
    uploads: Ghost<Seq<UploadOutcome>>,
}

impl<H: SessionHandler> CallbackHandler<H> {
    pub closed spec fn state(&self) -> CallbackState {
        self.state
    }

    pub closed spec fn error(&self) -> Option<Error> {
        self.error
    }

    pub closed spec fn aborted(&self) -> bool {
        self.control.aborted
    }

    /// The events handed to the handler so far, in order.
    pub closed spec fn trace(&self) -> Seq<EventView> {
        self.trace@
    }

    /// What the handler made of each event of `trace`, in the same order.
    pub closed spec fn outcomes(&self) -> Seq<Outcome> {
        self.outcomes@
    }

    /// What each request for upload content came to, in order.
    pub closed spec fn uploads(&self) -> Seq<UploadOutcome> {
        self.uploads@
    }

    pub closed spec fn received(&self) -> Seq<u8> {
        self.receive_buf@
    }

    pub closed spec fn sent(&self) -> Seq<u8> {
        self.send_buf@
    }

    pub closed spec fn handler(&self) -> H {
        self.handler
    }

    /// The invariant of a session: its events are in order for its state,
    /// each with the handler's outcome.
    pub open spec fn wf(&self) -> bool {
        &&& well_ordered(kinds(self.trace()), self.state())
        &&& self.outcomes().len() == self.trace().len()
    }

    /// The handler outcomes that came after those of `self`.
    pub open spec fn outcomes_since(&self, next: &Self) -> Seq<Outcome> {
        next.outcomes().skip(self.outcomes().len() as int)
    }

    /// What every callback keeps: the invariant, the events and outcomes
    /// before, the first error, and the mode.
    pub open spec fn advances_to(&self, next: &Self) -> bool {
        &&& next.wf()
        &&& next.trace().len() >= self.trace().len()
        &&& next.trace().take(self.trace().len() as int) == self.trace()
        &&& next.outcomes().take(self.outcomes().len() as int) == self.outcomes()
        &&& next.uploads().len() >= self.uploads().len()
        &&& next.uploads().take(self.uploads().len() as int) == self.uploads()
        &&& (self.error() is Some ==> next.error() == self.error())
        &&& (next.state() == self.state() || next.state() == next_state(self.state()))
        &&& (self.state() == CallbackState::Ftp <==> next.state() == CallbackState::Ftp)
    }

    /// How a callback ends: the failure `r` of its work is kept unless an
    /// earlier one is, and the session stops exactly when a failure is kept
    /// or the handler's last call left the abort flag set.
    pub open spec fn settles(&self, next: &Self, r: Result<(), Error>, flag: bool) -> bool {
        &&& next.error() == captured(self.error(), r)
        &&& next.aborted() == (next.error() is Some || flag)
    }

    /// One outgoing header callback, as `header_step` says.
    pub open spec fn sends_header(&self, next: &Self, data: Seq<u8>, r: Result<(), Error>) -> bool {
        &&& header_step(
            self.state() == CallbackState::HttpRequest,
            self.state(),
            self.sent(),
            data,
            EventView::HeaderSent(data),
            self.trace(),
            self.outcomes(),
            next.state(),
            next.sent(),
            next.trace(),
            next.outcomes(),
            r,
        )
        &&& next.received() == self.received()
        &&& next.uploads() == self.uploads()
    }

    /// One incoming header callback, as `header_step` says.
    pub open spec fn receives_header(&self, next: &Self, data: Seq<u8>, r: Result<(), Error>) -> bool {
        &&& header_step(
            collects_response(self.state()),
            self.state(),
            self.received(),
            data,
            EventView::HeaderReceived(data),
            self.trace(),
            self.outcomes(),
            next.state(),
            next.received(),
            next.trace(),
            next.outcomes(),
            r,
        )
        &&& next.sent() == self.sent()
        &&& next.uploads() == self.uploads()
    }

    /// One event that frames nothing, `v`, handed to the handler, whose
    /// outcome decides the rest.
    pub open spec fn delivers(&self, next: &Self, v: EventView) -> bool {
        &&& next.trace() == self.trace().push(v)
        &&& next.outcomes().len() == self.outcomes().len() + 1
        &&& next.state() == self.state()
        &&& next.sent() == self.sent()
        &&& next.received() == self.received()
        &&& next.uploads() == self.uploads()
        &&& self.settles(next, next.outcomes().last().0, next.outcomes().last().1)
    }

    /// Nothing handed to the handler and nothing changed.
    pub open spec fn untouched(&self, next: &Self) -> bool {
        &&& next.trace() == self.trace()
        &&& next.outcomes() == self.outcomes()
        &&& next.uploads() == self.uploads()
        &&& next.state() == self.state()
        &&& next.sent() == self.sent()
        &&& next.received() == self.received()
        &&& next.error() == self.error()
        &&& next.aborted() == (self.aborted() || self.error() is Some)
    }

    pub fn new(handler: H, mode: SessionMode) -> (r: Self)
        ensures
            r.wf(),
            r.trace().len() == 0,
            r.uploads().len() == 0,
            r.error() is None,
            !r.aborted(),
            r.handler() == handler,
            r.state() == (match mode {
                SessionMode::Http => CallbackState::HttpRequest,
                SessionMode::Ftp => CallbackState::Ftp,
            }),
    {
        let state = match mode {
            SessionMode::Http => CallbackState::HttpRequest,
            SessionMode::Ftp => CallbackState::Ftp,
        };
        let r = CallbackHandler {
            handler,
            control: CurlSessionControl::new(),
            state,
            error: None,
            receive_buf: Vec::new(),
            send_buf: Vec::new(),
            trace: Ghost(Seq::empty()),
            outcomes: Ghost(Seq::empty()),
            uploads: Ghost(Seq::empty()),
        };
        assert(kinds(r.trace@) =~= Seq::<EventKind>::empty());
        assert(parse_kinds(kinds(r.trace@)) =~= Seq::<EventKind>::empty());
        proof {
            reveal(well_ordered);
            reveal(parses_follow_raw);
        }
        r
    }

    /// Keeps the failure of `outcome`, unless an earlier one is kept, and
    /// stops the session whenever a failure is kept.
    pub fn record(&mut self, outcome: Result<(), Error>)
        ensures
            final(self).error() == captured(old(self).error(), outcome),
            final(self).aborted() == (old(self).aborted() || final(self).error() is Some),
            final(self).state() == old(self).state(),
            final(self).trace() == old(self).trace(),
            final(self).outcomes() == old(self).outcomes(),
            final(self).uploads() == old(self).uploads(),
            final(self).received() == old(self).received(),
            final(self).sent() == old(self).sent(),
    {
        if let Err(e) = outcome {
            if self.error.is_none() {
                self.error = Some(e);
            }
        }
        if self.error.is_some() {
            self.control.aborted = true;
        }
    }

    /// Hands `event` to the handler, noting what it made of it.
    fn emit(&mut self, event: SessionEvent) -> (r: Result<(), Error>)
        ensures
            final(self).trace() == old(self).trace().push(view_of(event)),
            final(self).outcomes() == old(self).outcomes().push((r, final(self).aborted())),
            final(self).uploads() == old(self).uploads(),
            final(self).state() == old(self).state(),
            final(self).error() == old(self).error(),
            final(self).received() == old(self).received(),
            final(self).sent() == old(self).sent(),
    {
        let ghost k = view_of(event);
        let r = self.handler.event(&mut self.control, event);
        self.trace = Ghost(self.trace@.push(k));
        self.outcomes = Ghost(self.outcomes@.push((r, self.control.aborted)));
        r
    }

    /// Hands a raw event that frames nothing to the handler.
    fn emit_plain(&mut self, event: SessionEvent) -> (r: Result<(), Error>)
        requires
            old(self).wf(),
            !is_parse_kind(view_kind(view_of(event))),
        ensures
            old(self).advances_to(final(self)),
            final(self).trace() == old(self).trace().push(view_of(event)),
            final(self).outcomes() == old(self).outcomes().push((r, final(self).aborted())),
            final(self).uploads() == old(self).uploads(),
            final(self).state() == old(self).state(),
            final(self).error() == old(self).error(),
            final(self).received() == old(self).received(),
            final(self).sent() == old(self).sent(),
    {
        let ghost t = self.trace@;
        let ghost os = self.outcomes@;
        let r = self.emit(event);
        proof {
            lemma_view_push(t, view_of(event), self.state, self.state);
            assert(self.outcomes@.take(os.len() as int) =~= os);
            assert(self.uploads@.take(self.uploads@.len() as int) =~= self.uploads@);
        }
        r
    }

    /// Emits the parse event for a block that state `from` gathered, and
    /// moves to `next_state(from)`.
    fn emit_parsed(&mut self, event: SessionEvent, from: CallbackState)
        -> (r: Result<(), Error>)
        requires
            old(self).wf(),
            old(self).state() == from,
            gathers(from),
            old(self).trace().len() > 0,
            view_kind(view_of(event)) == match from {
                CallbackState::HttpRequest => EventKind::HttpRequest,
                CallbackState::HttpResponse => EventKind::HttpResponse,
                _ => EventKind::HttpResponseTrailer,
            },
            view_kind(old(self).trace().last()) == if from == CallbackState::HttpRequest {
                EventKind::HeaderSent
            } else {
                EventKind::HeaderReceived
            },
        ensures
            final(self).wf(),
            final(self).state() == next_state(from),
            final(self).trace() == old(self).trace().push(view_of(event)),
            final(self).outcomes() == old(self).outcomes().push((r, final(self).aborted())),
            final(self).uploads() == old(self).uploads(),
            final(self).error() == old(self).error(),
            final(self).received() == old(self).received(),
            final(self).sent() == old(self).sent(),
    {
        let ghost t = self.trace@;
        self.state = match from {
            CallbackState::HttpRequest => CallbackState::HttpResponse,
            CallbackState::HttpResponse => CallbackState::HttpResponseTrailer,
            _ => CallbackState::Finished,
        };
        let r = self.emit(event);
        proof {
            assert(expected_parses(from).push(view_kind(view_of(event))) =~= expected_parses(
                next_state(from),
            ));
            lemma_view_push(t, view_of(event), from, next_state(from));
        }
        r
    }

    /// Outgoing header bytes: reported; if the handler takes them and the
    /// request head is being gathered, added to it, and a complete head is
    /// parsed and reported.
    fn handle_send_header(&mut self, data: &[u8]) -> (r: Result<(), Error>)
        requires
            old(self).wf(),
        ensures
            old(self).advances_to(final(self)),
            final(self).error() == old(self).error(),
            old(self).sends_header(final(self), data@, r),
            final(self).aborted() == flag_after(old(self).aborted(), old(self).outcomes_since(final(self))),
    {
        let ghost os = self.outcomes@;
        let ghost t = self.trace@;
        match self.emit_plain(SessionEvent::HeaderSent(data)) {
            Ok(()) => {},
            Err(e) => {
                proof { assert(self.outcomes@.skip(os.len() as int) =~= seq![self.outcomes@.last()]); }
                return Err(e);
            },
        }
        let ghost t1 = self.trace@;
        let ghost os1 = self.outcomes@;
        let state = self.state;
        if state == CallbackState::HttpRequest {
            match frame_header_bytes(state, &mut self.send_buf, data) {
                Framed::Request(h) => {
                    let r = self.emit_parsed(SessionEvent::HttpRequest(data, h), state);
                    proof {
                        assert(self.trace@.drop_last() =~= t1);
                        assert(self.trace@.take(t.len() as int) =~= t);
                        assert(self.outcomes@.take(os.len() as int) =~= os);
                        assert(self.outcomes@.skip(os.len() as int).last() == self.outcomes@.last());
                    }
                    return r;
                },
                Framed::Failed(e) => {
                    proof { assert(self.outcomes@.skip(os.len() as int) =~= seq![self.outcomes@.last()]); }
                    return Err(e);
                },
                _ => {},
            }
        }
        proof { assert(self.outcomes@.skip(os.len() as int) =~= seq![self.outcomes@.last()]); }
        Ok(())
    }

    /// Incoming header bytes: reported; if the handler takes them and the
    /// response head or the trailer is being gathered, added to it, and a
    /// complete block is parsed and reported.
    fn handle_receive_header(&mut self, data: &[u8]) -> (r: Result<(), Error>)
        requires
            old(self).wf(),
        ensures
            old(self).advances_to(final(self)),
            final(self).error() == old(self).error(),
            old(self).receives_header(final(self), data@, r),
            final(self).aborted() == flag_after(old(self).aborted(), old(self).outcomes_since(final(self))),
    {
        let ghost os = self.outcomes@;
        let ghost t = self.trace@;
        match self.emit_plain(SessionEvent::HeaderReceived(data)) {
            Ok(()) => {},
            Err(e) => {
                proof { assert(self.outcomes@.skip(os.len() as int) =~= seq![self.outcomes@.last()]); }
                return Err(e);
            },
        }
        let ghost t1 = self.trace@;
        let state = self.state;
        if state == CallbackState::HttpResponse || state == CallbackState::HttpResponseTrailer {
            let framed = frame_header_bytes(state, &mut self.receive_buf, data);
            let parsed = match framed {
                Framed::Response(h) => Some(self.emit_parsed(SessionEvent::HttpResponse(data, h), state)),
                Framed::Trailer(trailer) => Some(
                    self.emit_parsed(SessionEvent::HttpResponseTrailer(data, trailer), state),
                ),
                Framed::Failed(e) => {
                    proof { assert(self.outcomes@.skip(os.len() as int) =~= seq![self.outcomes@.last()]); }
                    return Err(e);
                },
                _ => None,
            };
            if let Some(r) = parsed {
                proof {
                    assert(self.trace@.drop_last() =~= t1);
                    assert(self.trace@.take(t.len() as int) =~= t);
                    assert(self.outcomes@.take(os.len() as int) =~= os);
                    assert(self.outcomes@.skip(os.len() as int).last() == self.outcomes@.last());
                }
                return r;
            }
        }
        proof { assert(self.outcomes@.skip(os.len() as int) =~= seq![self.outcomes@.last()]); }
        Ok(())
    }

    /// A diagnostic text line: a "connected" line whose address parses
    /// becomes a connection event, whose outcome is the result; any other
    /// line is ignored.
    fn handle_log(&mut self, data: &[u8]) -> (r: Result<(), Error>)
        requires
            old(self).wf(),
        ensures
            old(self).advances_to(final(self)),
            final(self).state() == old(self).state(),
            final(self).error() == old(self).error(),
            final(self).received() == old(self).received(),
            final(self).sent() == old(self).sent(),
            final(self).uploads() == old(self).uploads(),
            match connect_address_of(lossy_text_of(data@)) {
                Some(a) => final(self).trace() == old(self).trace().push(EventView::Connected(a))
                    && final(self).outcomes() == old(self).outcomes().push((r, final(self).aborted())),
                None => final(self).trace() == old(self).trace() && final(self).outcomes() == old(self).outcomes()
                    && final(self).aborted() == old(self).aborted() && r is Ok,
            },
    {
        let text = text_from_utf8_lossy(data);
        match parse_connect_address(text.as_str()) {
            Some(address) => self.emit_plain(SessionEvent::Connected(address)),
            None => {
                assert(self.trace@.take(self.trace@.len() as int) =~= self.trace@);
                assert(self.outcomes@.take(self.outcomes@.len() as int) =~= self.outcomes@);
                assert(self.uploads@.take(self.uploads@.len() as int) =~= self.uploads@);
                Ok(())
            },
        }
    }

    /// The transport's diagnostic callback: log text, outgoing header bytes,
    /// and raw body bytes in either direction become events. A failure of
    /// the handler or of a parse is kept and stops the session.
    pub fn debug_function(&mut self, kind: InfoKind, data: &[u8])
        requires
            old(self).wf(),
        ensures
            old(self).advances_to(final(self)),
            kind == InfoKind::HeaderOut ==> exists|r: Result<(), Error>|
                old(self).sends_header(final(self), data@, r) && old(self).settles(
                    final(self),
                    r,
                    flag_after(old(self).aborted(), old(self).outcomes_since(final(self))),
                ),
            kind == InfoKind::Text ==> match connect_address_of(lossy_text_of(data@)) {
                Some(a) => old(self).delivers(final(self), EventView::Connected(a)),
                None => old(self).untouched(final(self)),
            },
            kind == InfoKind::DataIn ==> old(self).delivers(final(self), EventView::BodyReceived(data@)),
            kind == InfoKind::DataOut ==> old(self).delivers(final(self), EventView::BodySent(data@)),
            (kind == InfoKind::HeaderIn || kind == InfoKind::SslDataIn || kind
                == InfoKind::SslDataOut) ==> old(self).untouched(final(self)),
    {
        let ghost t = self.trace@;
        match kind {
            InfoKind::Text => {
                let r = self.handle_log(data);
                self.record(r);
            },
            InfoKind::HeaderOut => {
                let r = self.handle_send_header(data);
                let ghost rv = r;
                self.record(r);
                assert(old(self).sends_header(self, data@, rv));
            },
            InfoKind::DataIn => {
                let r = self.emit_plain(SessionEvent::BodyReceived(data));
                self.record(r);
            },
            InfoKind::DataOut => {
                let r = self.emit_plain(SessionEvent::BodySent(data));
                self.record(r);
            },
            _ => {
                assert(t.take(t.len() as int) =~= t);
                assert(self.outcomes@.take(self.outcomes@.len() as int) =~= self.outcomes@);
                assert(self.uploads@.take(self.uploads@.len() as int) =~= self.uploads@);
                self.record(Ok(()));
            },
        }
    }

    /// The transport's header callback: the bytes are reported and framed.
    /// A failure of the handler or of a parse is kept and stops the session.
    /// Returns whether to go on.
    pub fn header_function(&mut self, data: &[u8]) -> (r: bool)
        requires
            old(self).wf(),
        ensures
            old(self).advances_to(final(self)),
            exists|step: Result<(), Error>|
                old(self).receives_header(final(self), data@, step) && old(self).settles(
                    final(self),
                    step,
                    flag_after(old(self).aborted(), old(self).outcomes_since(final(self))),
                ),
            r == !final(self).aborted(),
    {
        let step = self.handle_receive_header(data);
        let ghost sv = step;
        self.record(step);
        assert(old(self).receives_header(self, data@, sv));
        !self.control.aborted
    }

    /// The transport's progress callback: every call, changed or not,
    /// becomes an event with the four counters. Returns whether to go on.
    pub fn progress_function(
        &mut self,
        download_total: u64,
        download_current: u64,
        upload_total: u64,
        upload_current: u64,
    ) -> (r: bool)
        requires
            old(self).wf(),
        ensures
            old(self).advances_to(final(self)),
            old(self).delivers(
                final(self),
                EventView::Progress(download_total, download_current, upload_total, upload_current),
            ),
            r == !final(self).aborted(),
    {
        let r = self.emit_plain(
            SessionEvent::Progress { download_total, download_current, upload_total, upload_current },
        );
        self.record(r);
        !self.control.aborted
    }

    /// Asks the handler for upload content and reports what it gave.
    fn handle_send_content(&mut self, buf: &mut [u8]) -> (r: Result<usize, Error>)
        requires
            old(self).wf(),
        ensures
            old(self).advances_to(final(self)),
            final(self).state() == old(self).state(),
            final(self).error() == old(self).error(),
            final(self).sent() == old(self).sent(),
            final(self).received() == old(self).received(),
            final(self).uploads().len() == old(self).uploads().len() + 1,
            upload_step(
                final(self).uploads().last(),
                final(buf)@,
                old(self).trace(),
                old(self).outcomes(),
                final(self).trace(),
                final(self).outcomes(),
                final(self).aborted(),
                r,
            ),
    {
        let ghost t = self.trace@;
        let ghost os = self.outcomes@;
        let ghost us = self.uploads@;
        let outcome = self.handler.upload_content(&mut self.control, buf);
        self.uploads = Ghost(self.uploads@.push((outcome, self.control.aborted)));
        proof {
            assert(self.uploads@.take(us.len() as int) =~= us);
            assert(t.take(t.len() as int) =~= t);
            assert(os.take(os.len() as int) =~= os);
        }
        let size = match outcome {
            Ok(n) => n,
            Err(e) => return Err(e),
        };
        if size > buf.len() {
            return Err(
                Error::Other(OtherError::Custom("upload content overran its buffer".to_owned())),
            );
        }
        let filled = &buf[0..size];
        assert(filled@ =~= buf@.take(size as int));
        match self.emit_plain(SessionEvent::ContentSent(filled)) {
            Ok(()) => Ok(size),
            Err(e) => Err(e),
        }
    }

    /// The transport's read callback: asks the handler for upload content.
    /// Returns how many bytes it wrote to `buf`, or `None` to make the
    /// transport abort the upload; a failure is kept and stops the session.
    pub fn read_function(&mut self, buf: &mut [u8]) -> (r: Option<usize>)
        requires
            old(self).wf(),
        ensures
            old(self).advances_to(final(self)),
            final(self).state() == old(self).state(),
            final(self).sent() == old(self).sent(),
            final(self).received() == old(self).received(),
            final(self).uploads().len() == old(self).uploads().len() + 1,
            exists|step: Result<usize, Error>, flag: bool|
                upload_step(
                    final(self).uploads().last(),
                    final(buf)@,
                    old(self).trace(),
                    old(self).outcomes(),
                    final(self).trace(),
                    final(self).outcomes(),
                    flag,
                    step,
                ) && old(self).settles(final(self), unit_of(step), flag) && r == match step {
                    Ok(n) => if final(self).aborted() {
                        None
                    } else {
                        Some(n)
                    },
                    Err(_) => None,
                },
    {
        let step = self.handle_send_content(buf);
        let ghost sv = step;
        let ghost flag = self.control.aborted;
        match step {
            Ok(size) => {
                self.record(Ok(()));
                if self.control.aborted {
                    None
                } else {
                    Some(size)
                }
            },
            Err(e) => {
                self.record(Err(e));
                None
            },
        }
    }

    /// The transport's write callback: the content becomes an event. Returns
    /// how many bytes count as taken, which is none once the session has
    /// stopped.
    pub fn write_function(&mut self, data: &[u8]) -> (r: usize)
        requires
            old(self).wf(),
        ensures
            old(self).advances_to(final(self)),
            old(self).delivers(final(self), EventView::ContentReceived(data@)),
            r == if final(self).aborted() { 0 } else { data@.len() },
    {
        let r = self.emit_plain(SessionEvent::ContentReceived(data));
        self.record(r);
        if self.control.aborted {
            0
        } else {
            data.len()
        }
    }

    /// Ends the session: gives the handler back with the session's result.
    pub fn finish(self, transport: Result<(), Error>) -> (r: (H, Result<(), Error>))
        ensures
            r.0 == self.handler(),
            r.1 == session_result(self.error(), transport),
    {
        match self.error {
            Some(e) => (self.handler, Err(e)),
            None => (self.handler, transport),
        }
    }
}


/// Adding one event to an ordered trace keeps it ordered, provided a parse
/// event comes with its state change and right after its raw event.
proof fn lemma_trace_push(t: Seq<EventKind>, k: EventKind, s: CallbackState, s2: CallbackState)
    requires
        well_ordered(t, s),
        k == EventKind::HttpRequest ==> t.len() > 0 && t.last() == EventKind::HeaderSent,
        (k == EventKind::HttpResponse || k == EventKind::HttpResponseTrailer) ==> t.len() > 0
            && t.last() == EventKind::HeaderReceived,
        is_parse_kind(k) ==> expected_parses(s).push(k) == expected_parses(s2),
        !is_parse_kind(k) ==> s2 == s,
    ensures
        well_ordered(t.push(k), s2),
        t.push(k).take(t.len() as int) == t,
{
    reveal(well_ordered);
    assert(t.push(k).drop_last() =~= t);
    assert(t.push(k).take(t.len() as int) =~= t);
    lemma_follow_push(t, k);
}

/// Adding one event to a trace whose kinds are in order.
proof fn lemma_view_push(t: Seq<EventView>, v: EventView, s: CallbackState, s2: CallbackState)
    requires
        well_ordered(kinds(t), s),
        view_kind(v) == EventKind::HttpRequest ==> t.len() > 0 && view_kind(t.last())
            == EventKind::HeaderSent,
        (view_kind(v) == EventKind::HttpResponse || view_kind(v) == EventKind::HttpResponseTrailer)
            ==> t.len() > 0 && view_kind(t.last()) == EventKind::HeaderReceived,
        is_parse_kind(view_kind(v)) ==> expected_parses(s).push(view_kind(v)) == expected_parses(
            s2,
        ),
        !is_parse_kind(view_kind(v)) ==> s2 == s,
    ensures
        well_ordered(kinds(t.push(v)), s2),
        t.push(v).take(t.len() as int) == t,
{
    assert(kinds(t.push(v)) =~= kinds(t).push(view_kind(v)));
    assert(t.push(v).take(t.len() as int) =~= t);
    lemma_trace_push(kinds(t), view_kind(v), s, s2);
}

proof fn lemma_follow_push(t: Seq<EventKind>, k: EventKind)
    requires
        parses_follow_raw(t),
        k == EventKind::HttpRequest ==> t.len() > 0 && t.last() == EventKind::HeaderSent,
        (k == EventKind::HttpResponse || k == EventKind::HttpResponseTrailer) ==> t.len() > 0
            && t.last() == EventKind::HeaderReceived,
    ensures
        parses_follow_raw(t.push(k)),
{
    reveal(parses_follow_raw);
    let u = t.push(k);
    assert forall|i: int| 0 <= i < u.len() implies #[trigger] raw_before(u, i) by {
        if i < t.len() {
            assert(raw_before(t, i));
            assert(u[i] == t[i]);
            if i > 0 {
                assert(u[i - 1] == t[i - 1]);
            }
        }
    }
}

/// In every session, the parse events come in the order request,
/// response, trailer, each at most once, as many as the session's state
/// says, and each right after the raw header event that completed its block.
pub proof fn lemma_parse_events_in_order<H: SessionHandler>(session: CallbackHandler<H>)
    requires
        session.wf(),
    ensures
        parse_kinds(kinds(session.trace())) == expected_parses(session.state()),
        parse_kinds(kinds(session.trace())).len() <= 3,
        forall|i: int|
            0 <= i < parse_kinds(kinds(session.trace())).len() ==> #[trigger] parse_kinds(
                kinds(session.trace()),
            )[i] == parse_order()[i],
        forall|i: int|
            0 <= i < session.trace().len() ==> #[trigger] raw_before(kinds(session.trace()), i),
{
    lemma_parses_expected(kinds(session.trace()), session.state());
}

/// The order in which a session's header blocks are parsed.
pub open spec fn parse_order() -> Seq<EventKind> {
    seq![EventKind::HttpRequest, EventKind::HttpResponse, EventKind::HttpResponseTrailer]
}

proof fn lemma_parses_expected(t: Seq<EventKind>, s: CallbackState)
    requires
        well_ordered(t, s),
    ensures
        parse_kinds(t) == expected_parses(s),
        expected_parses(s).len() <= 3,
        forall|i: int|
            0 <= i < expected_parses(s).len() ==> #[trigger] expected_parses(s)[i]
                == parse_order()[i],
        forall|i: int| 0 <= i < t.len() ==> #[trigger] raw_before(t, i),
{
    reveal(well_ordered);
    reveal(parses_follow_raw);
}

/// When a callback hands an event to a handler that fails on it, and no
/// failure was kept before, that failure is the session's result whatever
/// the transport reports.
pub proof fn lemma_delivered_failure_is_result<H: SessionHandler>(
    before: CallbackHandler<H>,
    after: CallbackHandler<H>,
    v: EventView,
    transport: Result<(), Error>,
)
    requires
        before.error() is None,
        before.delivers(&after, v),
        after.outcomes().last().0 is Err,
    ensures
        after.aborted(),
        session_result(after.error(), transport) == after.outcomes().last().0,
{
}

/// A handler's failure is the session's result, whatever the transport
/// reports afterwards, and no later failure replaces it.
pub proof fn lemma_handler_error_is_result(
    e: Error,
    later: Result<(), Error>,
    transport: Result<(), Error>,
)
    ensures
        session_result(captured(captured(None, Err(e)), later), transport) == Err::<(), Error>(e),
{
}

} // verus!
