//! The completion-based server reactor.
//!
//! One reactor drives every client connection of a server through a
//! per-record state machine: accept, read the 9-byte header, read the
//! body, hand the request to the application, write the response, and
//! recycle the record for the next request on the same connection.  The
//! embedding program owns the sockets and the completion queue: each
//! call to `cycle` takes the completions the kernel delivered and
//! returns the submissions to perform.  Completions carry the id of the
//! record they belong to; a completion whose id matches no live record
//! (killed, closed, or reused) is discarded, which keeps a kill from
//! racing an in-flight completion.

use vstd::prelude::*;
use vstd::string::StringSliceAdditionalSpecFns;

use crate::errors::FalcoError;
use crate::frame::encode_frame;
use crate::frame::spec_frame_bytes;
use crate::ipv4::spec_is_ipv4;
use crate::ipv4::is_ipv4_bytes;
use crate::MessageHeaders;

verus! {

/// The default cap on a request or response body, in bytes.
pub const DEFAULT_MAX_BODY: u32 = 10485760;

/// The largest body cap a reactor accepts (keeps frame arithmetic inside
/// a 32-bit address space).
pub const MAX_BODY_LIMIT: u32 = 0xFFFF0000;

/// The default idle window, in the unit of the clock the embedder passes
/// to `cycle`.
pub const DEFAULT_IDLE_TIMEOUT: u64 = 60000;

/// A client record's lifecycle state.
#[derive(Debug, Copy, Clone, PartialEq, Eq, Structural)]
pub enum State {
    NonExistent,
    Idle,
    HeadersReaden,
    FinishedH,
    Reading,
    FinishedR,
    Available,
    Processing,
    Ready,
    WrittingSock,
    Kill,
    FinishedWS,
}

/// The kind of I/O operation a submission or completion refers to.
#[derive(Debug, Copy, Clone, PartialEq, Eq, Structural)]
pub enum Operation {
    OPSocketAcc,
    OPRead,
    OPWrite,
    OPClose,
}

/// What a reactor listens with and how much it will hold.
pub struct NetworkerSettings {
    /// Bytes of the dotted-quad host literal, at most 16.
    pub host: Vec<u8>,
    pub port: u16,
    /// Sockets that may wait unaccepted.
    pub max_queue: u16,
    /// Client records allocated up front; never fewer than one.
    pub max_clients: u16,
    /// Per-record cap on request and response bodies.
    pub max_body_size: u32,
    /// Records idle longer than this are killed.
    pub idle_timeout: u64,
}

/// One client record: the per-connection bookkeeping the reactor owns
/// from accept until kill.
#[derive(Debug)]
pub struct ClientRecord {
    /// Header bytes read so far, up to nine.
    pub header_buf: Vec<u8>,
    /// Request body bytes read so far.
    pub request: Vec<u8>,
    /// The response body, once the application applied one.
    pub response: Vec<u8>,
    /// The parsed request header.
    pub req_headers: MessageHeaders,
    /// The response header to write back.
    pub resp_headers: MessageHeaders,
    /// Bytes received toward the current read target.
    pub recv_offset: usize,
    /// Bytes of the response frame already written.
    pub writev_offset: usize,
    /// The record's identity; completions routed by it.  Reassigned
    /// fresh on every accept, so completions for a dead connection
    /// cannot touch a reused slot.
    pub id: u64,
    pub state: State,
    /// The clock value of the record's last I/O activity.
    pub activity: u64,
    /// The allocated buffer bound: the configured body cap.
    pub capacity: u64,
    /// Whether a read or write submission is outstanding.
    pub io_pending: bool,
    /// Whether the close for a killed record was already submitted.
    pub close_submitted: bool,
}

/// Per-record well-formedness, relative to the configured body cap.
pub open spec fn spec_record_wf(r: ClientRecord, max_body: u32) -> bool {
    &&& r.capacity == max_body as u64
    &&& (r.state is HeadersReaden ==> r.header_buf@.len() < 9 && r.recv_offset
        == r.header_buf@.len())
    &&& (r.state is FinishedH ==> r.req_headers.size <= max_body as u64)
    &&& (r.state is Reading ==> {
        &&& r.req_headers.size <= max_body as u64
        &&& r.request@.len() < r.req_headers.size
        &&& r.recv_offset == r.request@.len()
    })
    &&& ((r.state is FinishedR || r.state is Available || r.state is Processing) ==> {
        &&& r.req_headers.size <= max_body as u64
        &&& r.request@.len() == r.req_headers.size
    })
    &&& ((r.state is Ready || r.state is WrittingSock) ==> {
        &&& r.resp_headers.size == r.response@.len()
        &&& r.response@.len() <= max_body as u64
    })
    &&& (r.state is Ready ==> r.writev_offset == 0)
    &&& (r.state is WrittingSock ==> r.writev_offset < 9 + r.response@.len())
}

/// One finished I/O operation, handed to `cycle` by the embedder.
#[derive(Debug)]
pub enum Completion {
    /// An accept finished; `ok` says whether a connection arrived.
    Accepted { ok: bool },
    /// A read for record `client_id` delivered `data`; empty means the
    /// peer closed.
    ReadDone { client_id: u64, data: Vec<u8> },
    /// A write for record `client_id` pushed `n` bytes.
    WroteDone { client_id: u64, n: usize },
    /// The close for record `client_id` finished.
    Closed { client_id: u64 },
}

/// One I/O operation `cycle` asks the embedder to perform.
#[derive(Debug)]
pub enum Submission {
    /// Keep one accept outstanding.
    Accept,
    /// Read up to `max` more bytes for record `client_id`.
    Read { client_id: u64, max: usize },
    /// Write `data` for record `client_id`.
    Write { client_id: u64, data: Vec<u8> },
    /// Close record `client_id`'s socket.
    Close { client_id: u64 },
    /// Close the connection an accept just delivered: every record slot
    /// is taken.
    Reject,
}

impl Submission {
    /// The I/O operation kind this submission asks for.
    pub fn operation(&self) -> (r: Operation)
        ensures
            r == spec_submission_op(*self),
    {
        match self {
            Submission::Accept => Operation::OPSocketAcc,
            Submission::Read { .. } => Operation::OPRead,
            Submission::Write { .. } => Operation::OPWrite,
            Submission::Close { .. } => Operation::OPClose,
            Submission::Reject => Operation::OPClose,
        }
    }
}

/// The operation kind of a submission; a refused connection is closed.
pub open spec fn spec_submission_op(s: Submission) -> Operation {
    match s {
        Submission::Accept => Operation::OPSocketAcc,
        Submission::Read { .. } => Operation::OPRead,
        Submission::Write { .. } => Operation::OPWrite,
        Submission::Close { .. } => Operation::OPClose,
        Submission::Reject => Operation::OPClose,
    }
}

/// The record id a completion routes by, if any.
pub open spec fn spec_completion_id(c: Completion) -> Option<u64> {
    match c {
        Completion::Accepted { .. } => None,
        Completion::ReadDone { client_id, .. } => Some(client_id),
        Completion::WroteDone { client_id, .. } => Some(client_id),
        Completion::Closed { client_id } => Some(client_id),
    }
}

/// The completions of `cs` that route by record id `id`, in delivery
/// order.
pub open spec fn spec_addressed(cs: Seq<Completion>, id: u64) -> Seq<Completion>
    decreases cs.len(),
{
    if cs.len() == 0 {
        cs
    } else {
        let rest = spec_addressed(cs.drop_last(), id);
        if spec_completion_id(cs.last()) == Some(id) {
            rest.push(cs.last())
        } else {
            rest
        }
    }
}

/// Whether `cs` holds a `Closed` completion routed by `id`.
pub open spec fn spec_has_closed_for(cs: Seq<Completion>, id: u64) -> bool {
    exists|k: int|
        0 <= k < cs.len() && ((#[trigger] cs[k]) matches Completion::Closed { client_id }
            && client_id == id)
}

/// Whether `cs` reports any accepted connection.
pub open spec fn spec_has_accept(cs: Seq<Completion>) -> bool {
    exists|k: int|
        0 <= k < cs.len() && ((#[trigger] cs[k]) matches Completion::Accepted { ok } && ok)
}

/// A record equal to `pre` except for the functional updates of a kill.
pub open spec fn spec_killed(pre: ClientRecord) -> ClientRecord {
    ClientRecord { state: State::Kill, io_pending: false, ..pre }
}

/// Whether `post` is a blank `NonExistent` record that kept `id`.
pub open spec fn spec_reclaimed(post: ClientRecord, id: u64, capacity: u64) -> bool {
    &&& post.state is NonExistent
    &&& post.id == id
    &&& post.capacity == capacity
    &&& post.header_buf@ == Seq::<u8>::empty()
    &&& post.request@ == Seq::<u8>::empty()
    &&& post.response@ == Seq::<u8>::empty()
    &&& post.req_headers == (MessageHeaders { size: 0, compr_alg: 0 })
    &&& post.resp_headers == (MessageHeaders { size: 0, compr_alg: 0 })
    &&& post.recv_offset == 0
    &&& post.writev_offset == 0
    &&& post.activity == 0
    &&& post.io_pending == false
    &&& post.close_submitted == false
}

/// The fields a read completion never touches.
pub open spec fn spec_read_frame(pre: ClientRecord, post: ClientRecord) -> bool {
    &&& post.response == pre.response
    &&& post.resp_headers == pre.resp_headers
    &&& post.writev_offset == pre.writev_offset
    &&& post.id == pre.id
    &&& post.capacity == pre.capacity
    &&& post.close_submitted == pre.close_submitted
}

/// What one delivered completion does to the record its id routes to.
/// A completion that reaches a record in a state that does not expect it
/// (stale, reused, or out of order) leaves the record unchanged.
pub open spec fn spec_completion_step(
    pre: ClientRecord,
    c: Completion,
    now: u64,
    max_body: u32,
    post: ClientRecord,
) -> bool {
    match c {
        Completion::ReadDone { client_id, data } => {
            if client_id != pre.id || pre.state is NonExistent {
                post == pre
            } else if pre.state is HeadersReaden {
                if data@.len() == 0 || pre.header_buf@.len() + data@.len() > 9 {
                    post == spec_killed(pre)
                } else if pre.header_buf@.len() + data@.len() == 9 {
                    let h = crate::frame::spec_decoded_headers(pre.header_buf@ + data@);
                    &&& post.header_buf@ == Seq::<u8>::empty()
                    &&& post.request@ == Seq::<u8>::empty()
                    &&& post.req_headers == h
                    &&& post.recv_offset == 0
                    &&& post.state == (if h.size <= max_body as u64 {
                        State::FinishedH
                    } else {
                        State::Kill
                    })
                    &&& post.activity == now
                    &&& post.io_pending == false
                    &&& spec_read_frame(pre, post)
                } else {
                    &&& post.header_buf@ == pre.header_buf@ + data@
                    &&& post.request == pre.request
                    &&& post.req_headers == pre.req_headers
                    &&& post.recv_offset == pre.header_buf@.len() + data@.len()
                    &&& post.state is HeadersReaden
                    &&& post.activity == now
                    &&& post.io_pending == false
                    &&& spec_read_frame(pre, post)
                }
            } else if pre.state is Reading {
                if data@.len() == 0 || pre.request@.len() + data@.len() > pre.req_headers.size {
                    post == spec_killed(pre)
                } else {
                    &&& post.request@ == pre.request@ + data@
                    &&& post.header_buf == pre.header_buf
                    &&& post.req_headers == pre.req_headers
                    &&& post.state == (if pre.request@.len() + data@.len()
                        == pre.req_headers.size {
                        State::FinishedR
                    } else {
                        State::Reading
                    })
                    &&& post.recv_offset == (if pre.request@.len() + data@.len()
                        == pre.req_headers.size {
                        0 as int
                    } else {
                        (pre.request@.len() + data@.len()) as int
                    })
                    &&& post.activity == now
                    &&& post.io_pending == false
                    &&& spec_read_frame(pre, post)
                }
            } else {
                post == pre
            }
        },
        Completion::WroteDone { client_id, n } => {
            if client_id != pre.id || !(pre.state is WrittingSock) {
                post == pre
            } else {
                if n == 0 || pre.writev_offset + n > 9 + pre.response@.len() {
                    post == spec_killed(pre)
                } else if pre.writev_offset + n == 9 + pre.response@.len() {
                    post == ClientRecord {
                        state: State::FinishedWS,
                        writev_offset: 0,
                        activity: now,
                        io_pending: false,
                        ..pre
                    }
                } else {
                    post == ClientRecord {
                        writev_offset: (pre.writev_offset + n) as usize,
                        activity: now,
                        io_pending: false,
                        ..pre
                    }
                }
            }
        },
        Completion::Closed { client_id } => {
            if client_id == pre.id && pre.state is Kill && pre.close_submitted {
                spec_reclaimed(post, pre.id, pre.capacity)
            } else {
                post == pre
            }
        },
        Completion::Accepted { .. } => post == pre,
    }
}

/// `spec_completion_step` chained over a batch, in delivery order:
/// `trace` holds the record before the first completion, after each
/// completion in turn, and so after the whole batch.
pub open spec fn spec_completions_trace(
    cs: Seq<Completion>,
    now: u64,
    max_body: u32,
    trace: Seq<ClientRecord>,
) -> bool {
    &&& trace.len() == cs.len() + 1
    &&& forall|k: int|
        0 <= k < cs.len() ==> spec_completion_step(
            trace[k],
            #[trigger] cs[k],
            now,
            max_body,
            trace[k + 1],
        )
}

/// What the idle sweep does to one record: a record that is neither
/// free, held by the application, nor already dying, and whose last
/// activity lies beyond the idle window, is killed; every other record
/// is left alone.
pub open spec fn spec_sweep_step(pre: ClientRecord, now: u64, idle: u64, post: ClientRecord) -> bool {
    if !(pre.state is NonExistent) && !(pre.state is Processing) && !(pre.state is Kill) && now
        > pre.activity + idle {
        post == spec_killed(pre)
    } else {
        post == pre
    }
}

/// What the submission pass does to one record: a record that can act
/// takes its next step (the matching submission is promised by
/// `spec_emitted_for`); everything else is left alone.
pub open spec fn spec_dispatch_step(pre: ClientRecord, post: ClientRecord) -> bool {
    if pre.state is Idle {
        &&& post.header_buf@ == Seq::<u8>::empty()
        &&& post.recv_offset == 0
        &&& post.state is HeadersReaden
        &&& post.io_pending == true
        &&& post.request == pre.request
        &&& post.req_headers == pre.req_headers
        &&& post.activity == pre.activity
        &&& spec_read_frame(pre, post)
    } else if (pre.state is HeadersReaden || pre.state is Reading || pre.state is WrittingSock)
        && !pre.io_pending {
        post == ClientRecord { io_pending: true, ..pre }
    } else if pre.state is FinishedH {
        &&& post.request@ == Seq::<u8>::empty()
        &&& post.recv_offset == 0
        &&& post.state == (if pre.req_headers.size == 0 {
            State::FinishedR
        } else {
            State::Reading
        })
        &&& post.io_pending == (if pre.req_headers.size == 0 {
            pre.io_pending
        } else {
            true
        })
        &&& post.header_buf == pre.header_buf
        &&& post.req_headers == pre.req_headers
        &&& post.activity == pre.activity
        &&& spec_read_frame(pre, post)
    } else if pre.state is FinishedR {
        post == ClientRecord { state: State::Available, ..pre }
    } else if pre.state is Ready {
        post == ClientRecord { state: State::WrittingSock, io_pending: true, ..pre }
    } else if pre.state is FinishedWS {
        &&& post.header_buf@ == Seq::<u8>::empty()
        &&& post.request@ == Seq::<u8>::empty()
        &&& post.response@ == Seq::<u8>::empty()
        &&& post.resp_headers == (MessageHeaders { size: 0, compr_alg: 0 })
        &&& post.recv_offset == 0
        &&& post.writev_offset == 0
        &&& post.state is Idle
        &&& post.req_headers == pre.req_headers
        &&& post.id == pre.id
        &&& post.activity == pre.activity
        &&& post.capacity == pre.capacity
        &&& post.io_pending == pre.io_pending
        &&& post.close_submitted == pre.close_submitted
    } else if pre.state is Kill && !pre.close_submitted {
        post == ClientRecord { close_submitted: true, ..pre }
    } else {
        post == pre
    }
}

/// The submission owed to a record in state `r` (taken after the sweep,
/// before the pass): a fresh or continuing read with exactly the bytes
/// still missing, the unwritten suffix of the framed response, or the
/// close of a killed record.
pub open spec fn spec_emitted_for(r: ClientRecord, subs: Seq<Submission>) -> bool {
    &&& (r.state is Idle ==> exists|j: int|
        0 <= j < subs.len() && #[trigger] subs[j] == (Submission::Read { client_id: r.id, max: 9 }))
    &&& ((r.state is HeadersReaden && !r.io_pending) ==> exists|j: int|
        0 <= j < subs.len() && #[trigger] subs[j] == (Submission::Read {
            client_id: r.id,
            max: (9 - r.header_buf@.len()) as usize,
        }))
    &&& ((r.state is Reading && !r.io_pending) ==> exists|j: int|
        0 <= j < subs.len() && #[trigger] subs[j] == (Submission::Read {
            client_id: r.id,
            max: (r.req_headers.size - r.request@.len()) as usize,
        }))
    &&& ((r.state is FinishedH && r.req_headers.size > 0) ==> exists|j: int|
        0 <= j < subs.len() && #[trigger] subs[j] == (Submission::Read {
            client_id: r.id,
            max: r.req_headers.size as usize,
        }))
    &&& ((r.state is Ready || (r.state is WrittingSock && !r.io_pending)) ==> exists|j: int|
        0 <= j < subs.len() && ((#[trigger] subs[j]) matches Submission::Write { client_id, data }
            && client_id == r.id && data@ == spec_frame_bytes(
            r.resp_headers.compr_alg,
            r.response@,
        ).subrange(r.writev_offset as int, 9 + r.response@.len() as int)))
    &&& ((r.state is Kill && !r.close_submitted) ==> exists|j: int|
        0 <= j < subs.len() && #[trigger] subs[j] == (Submission::Close { client_id: r.id }))
}

/// A record id survives any completion step.
proof fn lemma_step_keeps_id(
    pre: ClientRecord,
    c: Completion,
    now: u64,
    max_body: u32,
    post: ClientRecord,
)
    requires
        spec_completion_step(pre, c, now, max_body, post),
    ensures
        post.id == pre.id,
{
}

/// Splitting a batch by id distributes over extending it by one.
proof fn lemma_addressed_push(cs: Seq<Completion>, c: Completion, id: u64)
    ensures
        spec_addressed(cs.push(c), id) == (if spec_completion_id(c) == Some(id) {
            spec_addressed(cs, id).push(c)
        } else {
            spec_addressed(cs, id)
        }),
{
    assert(cs.push(c).drop_last() =~= cs);
    assert(cs.push(c).last() == c);
}

/// An owed submission stays owed when the vector only grows.
proof fn lemma_emitted_monotone(r: ClientRecord, s1: Seq<Submission>, s2: Seq<Submission>)
    requires
        spec_emitted_for(r, s1),
        s1.len() <= s2.len(),
        forall|j: int| 0 <= j < s1.len() ==> s2[j] == #[trigger] s1[j],
    ensures
        spec_emitted_for(r, s2),
{
    if r.state is Idle {
        let j = choose|j: int|
            0 <= j < s1.len() && #[trigger] s1[j] == (Submission::Read {
                client_id: r.id,
                max: 9,
            });
        assert(s2[j] == s1[j]);
    }
    if r.state is HeadersReaden && !r.io_pending {
        let j = choose|j: int|
            0 <= j < s1.len() && #[trigger] s1[j] == (Submission::Read {
                client_id: r.id,
                max: (9 - r.header_buf@.len()) as usize,
            });
        assert(s2[j] == s1[j]);
    }
    if r.state is Reading && !r.io_pending {
        let j = choose|j: int|
            0 <= j < s1.len() && #[trigger] s1[j] == (Submission::Read {
                client_id: r.id,
                max: (r.req_headers.size - r.request@.len()) as usize,
            });
        assert(s2[j] == s1[j]);
    }
    if r.state is FinishedH && r.req_headers.size > 0 {
        let j = choose|j: int|
            0 <= j < s1.len() && #[trigger] s1[j] == (Submission::Read {
                client_id: r.id,
                max: r.req_headers.size as usize,
            });
        assert(s2[j] == s1[j]);
    }
    if r.state is Ready || (r.state is WrittingSock && !r.io_pending) {
        let j = choose|j: int|
            0 <= j < s1.len() && ((#[trigger] s1[j]) matches Submission::Write { client_id, data }
                && client_id == r.id && data@ == spec_frame_bytes(
                r.resp_headers.compr_alg,
                r.response@,
            ).subrange(r.writev_offset as int, 9 + r.response@.len() as int));
        assert(s2[j] == s1[j]);
    }
    if r.state is Kill && !r.close_submitted {
        let j = choose|j: int|
            0 <= j < s1.len() && #[trigger] s1[j] == (Submission::Close { client_id: r.id });
        assert(s2[j] == s1[j]);
    }
}

/// A record id survives a whole chained batch.
proof fn lemma_trace_keeps_id(cs: Seq<Completion>, now: u64, max_body: u32, trace: Seq<ClientRecord>)
    requires
        spec_completions_trace(cs, now, max_body, trace),
    ensures
        trace.last().id == trace[0].id,
    decreases cs.len(),
{
    if cs.len() > 0 {
        assert(spec_completions_trace(cs.drop_last(), now, max_body, trace.drop_last())) by {
            assert forall|k: int| 0 <= k < cs.drop_last().len() implies spec_completion_step(
                trace.drop_last()[k],
                #[trigger] cs.drop_last()[k],
                now,
                max_body,
                trace.drop_last()[k + 1],
            ) by {
                assert(cs.drop_last()[k] == cs[k]);
                assert(spec_completion_step(trace[k], cs[k], now, max_body, trace[k + 1]));
            }
        }
        lemma_trace_keeps_id(cs.drop_last(), now, max_body, trace.drop_last());
        let n = cs.len() - 1;
        assert(spec_completion_step(trace[n], cs[n], now, max_body, trace[n + 1]));
        lemma_step_keeps_id(trace[n], cs[n], now, max_body, trace[n + 1]);
    }
}

/// Only a `Closed` completion can free a record.
proof fn lemma_trace_keeps_live(
    cs: Seq<Completion>,
    now: u64,
    max_body: u32,
    trace: Seq<ClientRecord>,
)
    requires
        spec_completions_trace(cs, now, max_body, trace),
        forall|j: int| 0 <= j < cs.len() ==> !((#[trigger] cs[j]) is Closed),
        !(trace[0].state is NonExistent),
    ensures
        !(trace.last().state is NonExistent),
    decreases cs.len(),
{
    if cs.len() > 0 {
        assert(spec_completions_trace(cs.drop_last(), now, max_body, trace.drop_last())) by {
            assert forall|k: int| 0 <= k < cs.drop_last().len() implies spec_completion_step(
                trace.drop_last()[k],
                #[trigger] cs.drop_last()[k],
                now,
                max_body,
                trace.drop_last()[k + 1],
            ) by {
                assert(cs.drop_last()[k] == cs[k]);
                assert(spec_completion_step(trace[k], cs[k], now, max_body, trace[k + 1]));
            }
        }
        lemma_trace_keeps_live(cs.drop_last(), now, max_body, trace.drop_last());
        let n = cs.len() - 1;
        assert(spec_completion_step(trace[n], cs[n], now, max_body, trace[n + 1]));
        assert(!(cs[n] is Closed));
    }
}

/// A batch without a `Closed` for `id` filters to a `Closed`-free
/// sub-batch.
proof fn lemma_addressed_no_closed(cs: Seq<Completion>, id: u64)
    requires
        !spec_has_closed_for(cs, id),
    ensures
        forall|j: int|
            0 <= j < spec_addressed(cs, id).len() ==> !((#[trigger] spec_addressed(cs, id)[j])
                is Closed),
    decreases cs.len(),
{
    if cs.len() > 0 {
        assert(!spec_has_closed_for(cs.drop_last(), id)) by {
            if spec_has_closed_for(cs.drop_last(), id) {
                let k = choose|k: int|
                    0 <= k < cs.drop_last().len() && ((#[trigger] cs.drop_last()[k])
                        matches Completion::Closed { client_id } && client_id == id);
                assert(cs[k] == cs.drop_last()[k]);
            }
        }
        lemma_addressed_no_closed(cs.drop_last(), id);
        if spec_completion_id(cs.last()) == Some(id) {
            assert(cs[cs.len() - 1] == cs.last());
            assert(!(cs.last() is Closed));
        }
    }
}

/// The reactor: the record table, the author log that routes
/// completions, and the listener's settings.
pub struct Networker {
    settings: NetworkerSettings,
    slots: Vec<ClientRecord>,
    /// The author log: `author_log[i]` is the id generation the slot `i`
    /// currently answers to.
    author_log: Vec<u64>,
    /// The next fresh record id.
    client_num: u64,
    accept_pending: bool,
    /// Accepted connections that found no free slot and must be closed.
    pending_rejects: u16,
    initialized: bool,
}

impl Networker {
    /// The record table.
    pub closed spec fn spec_slots(&self) -> Seq<ClientRecord> {
        self.slots@
    }

    /// The listener's settings.
    pub closed spec fn spec_settings(&self) -> NetworkerSettings {
        self.settings
    }

    /// The author log.
    pub closed spec fn spec_author_log(&self) -> Seq<u64> {
        self.author_log@
    }

    /// The next fresh record id.
    pub closed spec fn spec_client_num(&self) -> u64 {
        self.client_num
    }

    /// Whether an accept submission is outstanding.
    pub closed spec fn spec_accept_pending(&self) -> bool {
        self.accept_pending
    }

    /// Whether `new` initialized this reactor.
    pub closed spec fn spec_initialized(&self) -> bool {
        self.initialized
    }

    /// The configured body cap.
    pub open spec fn spec_max_body(&self) -> u32 {
        self.spec_settings().max_body_size
    }

    /// The configured idle window.
    pub open spec fn spec_idle_timeout(&self) -> u64 {
        self.spec_settings().idle_timeout
    }

    /// The reactor's invariant: one author-log entry per record, agreeing
    /// with the record's id; distinct ids, all below the fresh-id
    /// counter; every record well-formed under the configured cap.
    pub open spec fn wf(&self) -> bool {
        &&& self.spec_initialized() ==> {
            &&& self.spec_slots().len() == self.spec_settings().max_clients as int
            &&& self.spec_slots().len() >= 1
            &&& self.spec_author_log().len() == self.spec_slots().len()
            &&& forall|i: int|
                0 <= i < self.spec_slots().len() ==> #[trigger] self.spec_author_log()[i]
                    == self.spec_slots()[i].id
            &&& forall|i: int|
                0 <= i < self.spec_slots().len() ==> #[trigger] self.spec_slots()[i].id
                    < self.spec_client_num()
            &&& forall|i: int, j: int|
                0 <= i < j < self.spec_slots().len() ==> #[trigger] self.spec_slots()[i].id
                    != #[trigger] self.spec_slots()[j].id
            &&& forall|i: int|
                0 <= i < self.spec_slots().len() ==> spec_record_wf(
                    #[trigger] self.spec_slots()[i],
                    self.spec_settings().max_body_size,
                )
            &&& self.spec_settings().max_body_size <= MAX_BODY_LIMIT
            &&& self.spec_settings().max_clients >= 1
        }
    }
}

impl Default for Networker {
    /// An uninitialized reactor; `new` is the only way to an initialized
    /// one.
    fn default() -> (r: Self)
        ensures
            !r.spec_initialized(),
    {
        Networker {
            settings: NetworkerSettings {
                host: Vec::new(),
                port: 0,
                max_queue: 0,
                max_clients: 0,
                max_body_size: DEFAULT_MAX_BODY,
                idle_timeout: DEFAULT_IDLE_TIMEOUT,
            },
            slots: Vec::new(),
            author_log: Vec::new(),
            client_num: 0,
            accept_pending: false,
            pending_rejects: 0,
            initialized: false,
        }
    }
}

/// The byte spelling of `localhost`.
pub open spec fn spec_localhost_bytes() -> Seq<u8> {
    seq![108u8, 111u8, 99u8, 97u8, 108u8, 104u8, 111u8, 115u8, 116u8]
}

/// The byte spelling of the loopback literal `127.0.0.1`.
pub open spec fn spec_loopback_bytes() -> Seq<u8> {
    seq![49u8, 50u8, 55u8, 46u8, 48u8, 46u8, 48u8, 46u8, 49u8]
}

/// The host bytes a reactor actually listens on: `localhost` stands for
/// the loopback literal, anything else is taken as written.
pub open spec fn spec_effective_host(b: Seq<u8>) -> Seq<u8> {
    if b == spec_localhost_bytes() {
        spec_loopback_bytes()
    } else {
        b
    }
}

/// Whether `a` equals the spelling of `localhost`.
fn is_localhost(a: &[u8]) -> (r: bool)
    ensures
        r == (a@ == spec_localhost_bytes()),
{
    let r = a.len() == 9 && a[0] == 108 && a[1] == 111 && a[2] == 99 && a[3] == 97 && a[4] == 108
        && a[5] == 104 && a[6] == 111 && a[7] == 115 && a[8] == 116;
    proof {
        if r {
            assert(a@ =~= spec_localhost_bytes());
        }
    }
    r
}

/// Check and normalize a host: `localhost` becomes `127.0.0.1`, the
/// result must be a dotted-quad IPv4 literal of at most 16 bytes.
pub fn host_check(host: &str) -> (r: Result<Vec<u8>, FalcoError>)
    ensures
        r matches Ok(b) ==> {
            &&& b@ == spec_effective_host(host.spec_bytes())
            &&& spec_is_ipv4(b@)
            &&& b@.len() <= 16
        },
        r is Ok <==> (spec_is_ipv4(spec_effective_host(host.spec_bytes()))
            && spec_effective_host(host.spec_bytes()).len() <= 16),
        r is Err ==> r == Result::<Vec<u8>, FalcoError>::Err(FalcoError::InvalidConfiguration),
{
    let bytes = host.as_bytes();
    let effective: Vec<u8> = if is_localhost(bytes) {
        let mut v: Vec<u8> = Vec::new();
        v.push(49);
        v.push(50);
        v.push(55);
        v.push(46);
        v.push(48);
        v.push(46);
        v.push(48);
        v.push(46);
        v.push(49);
        proof {
            assert(v@ =~= spec_loopback_bytes());
        }
        v
    } else {
        let mut v: Vec<u8> = Vec::new();
        let n = bytes.len();
        let mut i: usize = 0;
        while i < n
            invariant
                i <= n,
                n == bytes@.len(),
                v@ == bytes@.subrange(0, i as int),
            decreases n - i,
        {
            v.push(bytes[i]);
            i = i + 1;
            proof {
                assert(v@ =~= bytes@.subrange(0, i as int));
            }
        }
        proof {
            assert(v@ =~= bytes@);
        }
        v
    };
    if !is_ipv4_bytes(effective.as_slice()) {
        return Err(FalcoError::InvalidConfiguration);
    }
    if effective.len() > 16 {
        return Err(FalcoError::InvalidConfiguration);
    }
    Ok(effective)
}

/// The header-acceptance rule: a request whose header promises `size`
/// body bytes is admitted exactly when it fits the configured cap; a
/// larger promise kills the connection instead of growing the buffer.
pub fn admit_header(h: &MessageHeaders, max_body: u32) -> (r: bool)
    ensures
        r == (h.size <= max_body as u64),
{
    h.size <= max_body as u64
}

/// A blank record in `NonExistent`, carrying `id` and the configured
/// cap.
fn blank_record(id: u64, max_body: u32) -> (r: ClientRecord)
    ensures
        spec_reclaimed(r, id, max_body as u64),
        r.id == id,
        r.state is NonExistent,
        spec_record_wf(r, max_body),
        r.io_pending == false,
        r.close_submitted == false,
{
    ClientRecord {
        header_buf: Vec::new(),
        request: Vec::new(),
        response: Vec::new(),
        req_headers: MessageHeaders { size: 0, compr_alg: 0 },
        resp_headers: MessageHeaders { size: 0, compr_alg: 0 },
        recv_offset: 0,
        writev_offset: 0,
        id,
        state: State::NonExistent,
        activity: 0,
        capacity: max_body as u64,
        io_pending: false,
        close_submitted: false,
    }
}

impl Networker {
    /// Build a reactor listening on `host:port` with `max_clients`
    /// records (never fewer than one) and a backlog of `max_queue`.  The
    /// host must be an IPv4 literal, or `localhost` for `127.0.0.1`;
    /// anything else is an invalid configuration.
    pub fn new(host: &str, port: u16, max_queue: u16, max_clients: u16) -> (r: Result<
        Networker,
        FalcoError,
    >)
        ensures
            r matches Ok(n) ==> {
                &&& n.wf()
                &&& n.spec_initialized()
                &&& n.spec_settings().host@ == spec_effective_host(host.spec_bytes())
                &&& n.spec_settings().port == port
                &&& n.spec_settings().max_queue == max_queue
                &&& n.spec_settings().max_clients == (if max_clients == 0 {
                    1u16
                } else {
                    max_clients
                })
                &&& n.spec_settings().max_body_size == DEFAULT_MAX_BODY
                &&& n.spec_settings().idle_timeout == DEFAULT_IDLE_TIMEOUT
                &&& forall|i: int|
                    0 <= i < n.spec_slots().len() ==> (#[trigger] n.spec_slots()[i]).state
                        is NonExistent
                &&& !n.spec_accept_pending()
            },
            r is Ok <==> (spec_is_ipv4(spec_effective_host(host.spec_bytes()))
                && spec_effective_host(host.spec_bytes()).len() <= 16),
            r is Err ==> r == Result::<Networker, FalcoError>::Err(
                FalcoError::InvalidConfiguration,
            ),
    {
        let host_bytes = match host_check(host) {
            Ok(b) => b,
            Err(e) => {
                return Err(e);
            },
        };
        let c: u16 = if max_clients == 0 {
            1
        } else {
            max_clients
        };
        let mut slots: Vec<ClientRecord> = Vec::new();
        let mut author_log: Vec<u64> = Vec::new();
        let mut i: usize = 0;
        let count = c as usize;
        while i < count
            invariant
                i <= count,
                slots@.len() == i,
                author_log@.len() == i,
                forall|j: int|
                    0 <= j < i ==> {
                        &&& (#[trigger] slots@[j]).id == j as u64
                        &&& slots@[j].state is NonExistent
                        &&& spec_record_wf(slots@[j], DEFAULT_MAX_BODY)
                    },
                forall|j: int| 0 <= j < i ==> #[trigger] author_log@[j] == j as u64,
            decreases count - i,
        {
            slots.push(blank_record(i as u64, DEFAULT_MAX_BODY));
            author_log.push(i as u64);
            i = i + 1;
        }
        Ok(Networker {
            settings: NetworkerSettings {
                host: host_bytes,
                port,
                max_queue,
                max_clients: c,
                max_body_size: DEFAULT_MAX_BODY,
                idle_timeout: DEFAULT_IDLE_TIMEOUT,
            },
            slots,
            author_log,
            client_num: c as u64,
            accept_pending: false,
            pending_rejects: 0,
            initialized: true,
        })
    }
}

impl Networker {
    /// The slot whose live record answers to `client_id`; `None` when the
    /// id belongs to no live record, in which case the completion that
    /// carried it is stale and must be discarded.
    fn find_slot(&self, client_id: u64) -> (r: Option<usize>)
        requires
            self.wf(),
            self.spec_initialized(),
        ensures
            r matches Some(i) ==> {
                &&& 0 <= i < self.spec_slots().len()
                &&& self.spec_slots()[i as int].id == client_id
                &&& !(self.spec_slots()[i as int].state is NonExistent)
            },
            r is None ==> forall|i: int|
                0 <= i < self.spec_slots().len() ==> !((#[trigger] self.spec_slots()[i]).id
                    == client_id && !(self.spec_slots()[i].state is NonExistent)),
    {
        let n = self.slots.len();
        let mut i: usize = 0;
        while i < n
            invariant
                i <= n,
                n == self.spec_slots().len(),
                self.wf(),
                self.spec_initialized(),
                forall|j: int|
                    0 <= j < i ==> !((#[trigger] self.spec_slots()[j]).id == client_id && !(
                    self.spec_slots()[j].state is NonExistent)),
            decreases n - i,
        {
            if self.author_log[i] == client_id && !(self.slots[i].state == State::NonExistent) {
                return Some(i);
            }
            i = i + 1;
        }
        None
    }

    /// The first free (NonExistent) slot, if any.
    fn find_free(&self) -> (r: Option<usize>)
        requires
            self.wf(),
            self.spec_initialized(),
        ensures
            r matches Some(i) ==> {
                &&& 0 <= i < self.spec_slots().len()
                &&& self.spec_slots()[i as int].state is NonExistent
            },
            r is None ==> forall|i: int|
                0 <= i < self.spec_slots().len() ==> !((#[trigger] self.spec_slots()[i]).state
                    is NonExistent),
    {
        let n = self.slots.len();
        let mut i: usize = 0;
        while i < n
            invariant
                i <= n,
                n == self.spec_slots().len(),
                self.wf(),
                self.spec_initialized(),
                forall|j: int|
                    0 <= j < i ==> !((#[trigger] self.spec_slots()[j]).state is NonExistent),
            decreases n - i,
        {
            if self.slots[i].state == State::NonExistent {
                return Some(i);
            }
            i = i + 1;
        }
        None
    }

    /// Mark the record at `i` for teardown.
    fn kill_slot(&mut self, i: usize)
        requires
            old(self).wf(),
            old(self).spec_initialized(),
            i < old(self).spec_slots().len(),
        ensures
            final(self).wf(),
            final(self).spec_initialized(),
            final(self).spec_settings() == old(self).spec_settings(),
            final(self).spec_client_num() == old(self).spec_client_num(),
            final(self).spec_accept_pending() == old(self).spec_accept_pending(),
            final(self).spec_slots() == old(self).spec_slots().update(
                i as int,
                ClientRecord {
                    state: State::Kill,
                    io_pending: false,
                    ..old(self).spec_slots()[i as int]
                },
            ),
            final(self).spec_author_log() == old(self).spec_author_log(),
    {
        let rec = &mut self.slots[i];
        rec.state = State::Kill;
        rec.io_pending = false;
    }

    /// Hand out a completed request, if any record holds one: the first
    /// record in `Available` moves to `Processing` and its handle is
    /// returned.  While the handle is out, the reactor leaves that
    /// record alone.
    pub fn get_client(&mut self) -> (r: Option<ClientHandler>)
        requires
            old(self).wf(),
            old(self).spec_initialized(),
        ensures
            final(self).wf(),
            final(self).spec_initialized(),
            final(self).spec_settings() == old(self).spec_settings(),
            r matches Some(h) ==> {
                &&& 0 <= h.spec_slot() < old(self).spec_slots().len()
                &&& old(self).spec_slots()[h.spec_slot()].state is Available
                &&& h.spec_id() == old(self).spec_slots()[h.spec_slot()].id
                &&& final(self).spec_slots() == old(self).spec_slots().update(
                    h.spec_slot(),
                    ClientRecord {
                        state: State::Processing,
                        ..old(self).spec_slots()[h.spec_slot()]
                    },
                )
                &&& h.valid(final(self))
            },
            r is None ==> *final(self) == *old(self),
            (r is Some) <==> (exists|i: int|
                0 <= i < old(self).spec_slots().len() && (#[trigger] old(self).spec_slots()[i]).state
                    is Available),
    {
        let n = self.slots.len();
        let mut i: usize = 0;
        while i < n
            invariant
                i <= n,
                n == self.spec_slots().len(),
                self.wf(),
                self.spec_initialized(),
                *self == *old(self),
                forall|j: int|
                    0 <= j < i ==> !((#[trigger] self.spec_slots()[j]).state is Available),
            decreases n - i,
        {
            if self.slots[i].state == State::Available {
                let id = self.author_log[i];
                let rec = &mut self.slots[i];
                rec.state = State::Processing;
                return Some(ClientHandler { slot: i, id });
            }
            i = i + 1;
        }
        None
    }
}

/// The application's exclusive borrow of one completed request.
///
/// A handle names the record it was taken from and the id generation it
/// was taken at.  While the record stays in `Processing` the reactor
/// neither reads nor frees its buffers; the holder either applies a
/// response, which readies the record for writing, or kills it, which
/// closes the connection without a byte sent.  There is no way back to
/// `Idle` without a response: a dropped request tears the connection
/// down rather than leak a stale buffer.
#[derive(Debug, Copy, Clone)]
pub struct ClientHandler {
    slot: usize,
    id: u64,
}

impl ClientHandler {
    /// The slot this handle borrows.
    pub closed spec fn spec_slot(&self) -> int {
        self.slot as int
    }

    /// The id generation this handle was taken at.
    pub closed spec fn spec_id(&self) -> u64 {
        self.id
    }

    /// Whether this handle still names a live `Processing` record of
    /// `net`.
    pub open spec fn valid(&self, net: &Networker) -> bool {
        &&& 0 <= self.spec_slot() < net.spec_slots().len()
        &&& net.spec_slots()[self.spec_slot()].id == self.spec_id()
        &&& net.spec_slots()[self.spec_slot()].state is Processing
    }

    /// The completed request: its compression tag and a copy of its
    /// body, so the reactor's buffer can be recycled once the handle
    /// yields.
    pub fn get_request(&self, net: &Networker) -> (r: (crate::CompressionAlgorithm, Vec<u8>))
        requires
            net.wf(),
            net.spec_initialized(),
            self.valid(net),
        ensures
            r.0 == crate::spec_tag_of_value(
                net.spec_slots()[self.spec_slot()].req_headers.compr_alg,
            ),
            r.1@ == net.spec_slots()[self.spec_slot()].request@,
    {
        let rec = &net.slots[self.slot];
        let body = vstd::slice::slice_to_vec(rec.request.as_slice());
        (crate::CompressionAlgorithm::from(rec.req_headers.compr_alg), body)
    }

    /// Apply the application's response: the record moves to `Ready` and
    /// the next cycle writes the framed response back.  A response over
    /// the configured cap is refused and the record stays as it was.
    pub fn apply_response(
        self,
        net: &mut Networker,
        response: Vec<u8>,
        compression_algorithm: crate::CompressionAlgorithm,
        now: u64,
    ) -> (r: Result<(), FalcoError>)
        requires
            old(net).wf(),
            old(net).spec_initialized(),
            self.valid(old(net)),
        ensures
            final(net).wf(),
            final(net).spec_initialized(),
            final(net).spec_settings() == old(net).spec_settings(),
            r is Err <==> response@.len() > old(net).spec_max_body() as int,
            r is Err ==> r == Result::<(), FalcoError>::Err(FalcoError::InvalidConfiguration)
                && *final(net) == *old(net),
            r is Ok ==> final(net).spec_slots() == old(net).spec_slots().update(
                self.spec_slot(),
                ClientRecord {
                    response: response,
                    resp_headers: MessageHeaders {
                        size: response@.len() as u64,
                        compr_alg: crate::spec_tag_value(compression_algorithm),
                    },
                    state: State::Ready,
                    writev_offset: 0,
                    activity: now,
                    io_pending: false,
                    ..old(net).spec_slots()[self.spec_slot()]
                },
            ),
    {
        if response.len() as u64 > net.settings.max_body_size as u64 {
            return Err(FalcoError::InvalidConfiguration);
        }
        let size = response.len() as u64;
        let tag = u8::from(compression_algorithm);
        let rec = &mut net.slots[self.slot];
        rec.response = response;
        rec.resp_headers = MessageHeaders { size, compr_alg: tag };
        rec.state = State::Ready;
        rec.writev_offset = 0;
        rec.activity = now;
        rec.io_pending = false;
        Ok(())
    }

    /// Drop the request without a response: the record moves to `Kill`,
    /// the connection will be closed, and no bytes are ever written for
    /// it.
    pub fn kill(self, net: &mut Networker)
        requires
            old(net).wf(),
            old(net).spec_initialized(),
            self.valid(old(net)),
        ensures
            final(net).wf(),
            final(net).spec_initialized(),
            final(net).spec_settings() == old(net).spec_settings(),
            final(net).spec_slots() == old(net).spec_slots().update(
                self.spec_slot(),
                ClientRecord {
                    state: State::Kill,
                    io_pending: false,
                    ..old(net).spec_slots()[self.spec_slot()]
                },
            ),
    {
        net.kill_slot(self.slot);
    }
}

impl Networker {
    /// One accept completion: clear the outstanding-accept flag; a
    /// delivered connection takes the first free slot under a fresh id,
    /// or is booked for rejection when every slot is taken.  No live
    /// record is touched.
    fn on_accepted(&mut self, ok: bool, now: u64)
        requires
            old(self).wf(),
            old(self).spec_initialized(),
        ensures
            final(self).wf(),
            final(self).spec_initialized(),
            final(self).spec_settings() == old(self).spec_settings(),
            final(self).spec_slots().len() == old(self).spec_slots().len(),
            forall|i: int|
                0 <= i < old(self).spec_slots().len() && !((#[trigger] old(
                    self,
                ).spec_slots()[i]).state is NonExistent) ==> final(self).spec_slots()[i] == old(
                    self,
                ).spec_slots()[i],
            !ok ==> final(self).spec_slots() == old(self).spec_slots(),
            !final(self).spec_accept_pending(),
            old(self).spec_client_num() <= final(self).spec_client_num(),
    {
        self.accept_pending = false;
        if ok {
            let max_body = self.settings.max_body_size;
            match self.find_free() {
                Some(i) => {
                    let id = self.client_num;
                    if id == u64::MAX {
                        // the id space is spent; refuse the connection
                        if self.pending_rejects < u16::MAX {
                            self.pending_rejects = self.pending_rejects + 1;
                        }
                    } else {
                        self.client_num = id + 1;
                        let mut nr = blank_record(id, max_body);
                        nr.state = State::Idle;
                        nr.activity = now;
                        let rec = &mut self.slots[i];
                        *rec = nr;
                        let al = &mut self.author_log[i];
                        *al = id;
                    }
                },
                None => {
                    // every slot is taken: close the connection
                    if self.pending_rejects < u16::MAX {
                        self.pending_rejects = self.pending_rejects + 1;
                    }
                },
            }
        }
    }

    /// One read completion: the record the id routes to accumulates the
    /// bytes per `spec_completion_step`; every other record is
    /// untouched.
    #[verifier::rlimit(100)]
    fn on_read_done(&mut self, client_id: u64, data: Vec<u8>, now: u64)
        requires
            old(self).wf(),
            old(self).spec_initialized(),
        ensures
            final(self).wf(),
            final(self).spec_initialized(),
            final(self).spec_settings() == old(self).spec_settings(),
            final(self).spec_slots().len() == old(self).spec_slots().len(),
            final(self).spec_client_num() == old(self).spec_client_num(),
            final(self).spec_accept_pending() == old(self).spec_accept_pending(),
            forall|i: int|
                0 <= i < old(self).spec_slots().len() && (#[trigger] old(
                    self,
                ).spec_slots()[i]).id != client_id ==> final(self).spec_slots()[i] == old(
                    self,
                ).spec_slots()[i],
            forall|i: int|
                0 <= i < old(self).spec_slots().len() && (#[trigger] old(
                    self,
                ).spec_slots()[i]).id == client_id ==> spec_completion_step(
                    old(self).spec_slots()[i],
                    Completion::ReadDone { client_id, data },
                    now,
                    old(self).spec_max_body(),
                    final(self).spec_slots()[i],
                ),
    {
        let ghost pre = *old(self);
        let ghost c0 = Completion::ReadDone { client_id, data };
        let max_body = self.settings.max_body_size;
        match self.find_slot(client_id) {
            Some(i) => {
                proof {
                    assert forall|k: int|
                        0 <= k < pre.spec_slots().len() && pre.spec_slots()[k].id
                            == client_id implies k == i as int by {}
                }
                let st = self.slots[i].state;
                if st == State::HeadersReaden {
                    if data.len() == 0 || data.len() > 9 - self.slots[i].header_buf.len() {
                        self.kill_slot(i);
                    } else {
                        let mut d = data;
                        let rec = &mut self.slots[i];
                        rec.header_buf.append(&mut d);
                        rec.recv_offset = rec.header_buf.len();
                        rec.activity = now;
                        rec.io_pending = false;
                        if rec.header_buf.len() == 9 {
                            let h = crate::frame::decode_headers(rec.header_buf.as_slice());
                            rec.req_headers = h;
                            rec.header_buf = Vec::new();
                            rec.recv_offset = 0;
                            rec.request = Vec::new();
                            if admit_header(&h, max_body) {
                                rec.state = State::FinishedH;
                            } else {
                                rec.state = State::Kill;
                                rec.io_pending = false;
                            }
                        }
                        proof {
                            assert(spec_completion_step(
                                pre.spec_slots()[i as int],
                                c0,
                                now,
                                max_body,
                                self.spec_slots()[i as int],
                            ));
                        }
                    }
                } else if st == State::Reading {
                    let have = self.slots[i].request.len() as u64;
                    let size = self.slots[i].req_headers.size;
                    if data.len() == 0 || data.len() as u64 > size - have {
                        self.kill_slot(i);
                    } else {
                        let mut d = data;
                        let rec = &mut self.slots[i];
                        rec.request.append(&mut d);
                        rec.recv_offset = rec.request.len();
                        rec.activity = now;
                        rec.io_pending = false;
                        if rec.request.len() as u64 == size {
                            rec.state = State::FinishedR;
                            rec.recv_offset = 0;
                        }
                    }
                }
                // any other state: a stale or unexpected read
            },
            None => {},
        }
    }

    /// One write completion: the record the id routes to advances its
    /// write offset per `spec_completion_step`; every other record is
    /// untouched.
    fn on_wrote_done(&mut self, client_id: u64, n: usize, now: u64)
        requires
            old(self).wf(),
            old(self).spec_initialized(),
        ensures
            final(self).wf(),
            final(self).spec_initialized(),
            final(self).spec_settings() == old(self).spec_settings(),
            final(self).spec_slots().len() == old(self).spec_slots().len(),
            final(self).spec_client_num() == old(self).spec_client_num(),
            final(self).spec_accept_pending() == old(self).spec_accept_pending(),
            forall|i: int|
                0 <= i < old(self).spec_slots().len() && (#[trigger] old(
                    self,
                ).spec_slots()[i]).id != client_id ==> final(self).spec_slots()[i] == old(
                    self,
                ).spec_slots()[i],
            forall|i: int|
                0 <= i < old(self).spec_slots().len() && (#[trigger] old(
                    self,
                ).spec_slots()[i]).id == client_id ==> spec_completion_step(
                    old(self).spec_slots()[i],
                    Completion::WroteDone { client_id, n },
                    now,
                    old(self).spec_max_body(),
                    final(self).spec_slots()[i],
                ),
    {
        let ghost pre = *old(self);
        match self.find_slot(client_id) {
            Some(i) => {
                proof {
                    assert forall|k: int|
                        0 <= k < pre.spec_slots().len() && pre.spec_slots()[k].id
                            == client_id implies k == i as int by {}
                }
                if self.slots[i].state == State::WrittingSock {
                    let total: u64 = 9 + self.slots[i].response.len() as u64;
                    let off: u64 = self.slots[i].writev_offset as u64;
                    if n == 0 || n as u64 > total - off {
                        self.kill_slot(i);
                    } else {
                        let rec = &mut self.slots[i];
                        rec.writev_offset = rec.writev_offset + n;
                        rec.activity = now;
                        rec.io_pending = false;
                        if rec.writev_offset as u64 == total {
                            rec.state = State::FinishedWS;
                            rec.writev_offset = 0;
                        }
                    }
                }
            },
            None => {},
        }
    }

    /// One close completion: the killed record the id routes to is
    /// reclaimed as a blank slot per `spec_completion_step`; every other
    /// record is untouched.
    fn on_closed(&mut self, client_id: u64, now: u64)
        requires
            old(self).wf(),
            old(self).spec_initialized(),
        ensures
            final(self).wf(),
            final(self).spec_initialized(),
            final(self).spec_settings() == old(self).spec_settings(),
            final(self).spec_slots().len() == old(self).spec_slots().len(),
            final(self).spec_client_num() == old(self).spec_client_num(),
            final(self).spec_accept_pending() == old(self).spec_accept_pending(),
            forall|i: int|
                0 <= i < old(self).spec_slots().len() && (#[trigger] old(
                    self,
                ).spec_slots()[i]).id != client_id ==> final(self).spec_slots()[i] == old(
                    self,
                ).spec_slots()[i],
            forall|i: int|
                0 <= i < old(self).spec_slots().len() && (#[trigger] old(
                    self,
                ).spec_slots()[i]).id == client_id ==> spec_completion_step(
                    old(self).spec_slots()[i],
                    Completion::Closed { client_id },
                    now,
                    old(self).spec_max_body(),
                    final(self).spec_slots()[i],
                ),
    {
        let ghost pre = *old(self);
        let max_body = self.settings.max_body_size;
        match self.find_slot(client_id) {
            Some(i) => {
                proof {
                    assert forall|k: int|
                        0 <= k < pre.spec_slots().len() && pre.spec_slots()[k].id
                            == client_id implies k == i as int by {}
                }
                if self.slots[i].state == State::Kill && self.slots[i].close_submitted {
                    let id = self.slots[i].id;
                    let rec = &mut self.slots[i];
                    *rec = blank_record(id, max_body);
                }
            },
            None => {},
        }
    }

    /// Advance the state machine by one completed I/O operation.
    ///
    /// Completions route by record id through the author log; one whose
    /// id matches no live record is discarded, so a completion from a
    /// connection that was killed and whose slot was reused can never
    /// touch the new tenant.  A record in `Processing` (a handle is out)
    /// is never touched.
    fn step_completion(&mut self, c: Completion, now: u64)
        requires
            old(self).wf(),
            old(self).spec_initialized(),
        ensures
            final(self).wf(),
            final(self).spec_initialized(),
            final(self).spec_settings() == old(self).spec_settings(),
            final(self).spec_slots().len() == old(self).spec_slots().len(),
            forall|i: int|
                0 <= i < old(self).spec_slots().len() && (old(self).spec_slots()[i].state
                    is Processing) ==> final(self).spec_slots()[i] == #[trigger] old(self).spec_slots()[i],
            forall|i: int|
                0 <= i < old(self).spec_slots().len() && (match spec_completion_id(c) {
                    Some(id) => (#[trigger] old(self).spec_slots()[i]).id != id,
                    None => !(old(self).spec_slots()[i].state is NonExistent),
                }) ==> final(self).spec_slots()[i] == old(self).spec_slots()[i],
            forall|i: int|
                0 <= i < old(self).spec_slots().len() && spec_completion_id(c) == Some(
                    (#[trigger] old(self).spec_slots()[i]).id,
                ) ==> spec_completion_step(
                    old(self).spec_slots()[i],
                    c,
                    now,
                    old(self).spec_max_body(),
                    final(self).spec_slots()[i],
                ),
            (c matches Completion::Accepted { ok } && !ok) ==> final(self).spec_slots() == old(
                self,
            ).spec_slots(),
            !old(self).spec_accept_pending() ==> !final(self).spec_accept_pending(),
            old(self).spec_client_num() <= final(self).spec_client_num(),
    {
        let ghost c0 = c;
        match c {
            Completion::Accepted { ok } => {
                self.on_accepted(ok, now);
            },
            Completion::ReadDone { client_id, data } => {
                self.on_read_done(client_id, data, now);
            },
            Completion::WroteDone { client_id, n } => {
                self.on_wrote_done(client_id, n, now);
            },
            Completion::Closed { client_id } => {
                self.on_closed(client_id, now);
            },
        }
    }
    /// Drain one batch of completions, in delivery order.
    ///
    /// Every record that was live when the batch arrived, and whose id
    /// is not both closed and potentially reused within the same batch,
    /// ends exactly where chaining `spec_completion_step` over the
    /// completions addressed to it leads.
    #[verifier::rlimit(100)]
    fn drain_completions(&mut self, completions: Vec<Completion>, now: u64)
        requires
            old(self).wf(),
            old(self).spec_initialized(),
        ensures
            final(self).wf(),
            final(self).spec_initialized(),
            final(self).spec_settings() == old(self).spec_settings(),
            final(self).spec_slots().len() == old(self).spec_slots().len(),
            forall|i: int|
                0 <= i < old(self).spec_slots().len() && (old(self).spec_slots()[i].state
                    is Processing) ==> final(self).spec_slots()[i] == #[trigger] old(self).spec_slots()[i],
            old(self).spec_client_num() <= final(self).spec_client_num(),
            !old(self).spec_accept_pending() ==> !final(self).spec_accept_pending(),
            forall|i: int|
                0 <= i < old(self).spec_slots().len() && !((#[trigger] old(self).spec_slots()[i]).state
                    is NonExistent) && (!spec_has_closed_for(
                    completions@,
                    old(self).spec_slots()[i].id,
                ) || !spec_has_accept(completions@)) ==> exists|tr: Seq<ClientRecord>|
                    {
                        &&& #[trigger] spec_completions_trace(
                            spec_addressed(completions@, old(self).spec_slots()[i].id),
                            now,
                            old(self).spec_max_body(),
                            tr,
                        )
                        &&& tr.len() >= 1
                        &&& tr[0] == old(self).spec_slots()[i]
                        &&& tr.last() == final(self).spec_slots()[i]
                    },
    {
        let ghost orig = *old(self);
        let ghost cs0 = completions@;
        let n = self.slots.len();
        let mut comps = completions;
        let ghost mut traces: Seq<Seq<ClientRecord>> = Seq::new(
            n as nat,
            |i: int| seq![orig.spec_slots()[i]],
        );
        proof {
            assert(cs0.subrange(0, 0) =~= Seq::<Completion>::empty());
        }
        while comps.len() > 0
            invariant
                self.wf(),
                self.spec_initialized(),
                self.spec_settings() == orig.spec_settings(),
                self.spec_slots().len() == orig.spec_slots().len(),
                n == orig.spec_slots().len(),
                orig.wf(),
                orig.spec_initialized(),
                comps@.len() <= cs0.len(),
                comps@ == cs0.subrange(cs0.len() - comps@.len(), cs0.len() as int),
                orig.spec_client_num() <= self.spec_client_num(),
                !orig.spec_accept_pending() ==> !self.spec_accept_pending(),
                forall|i: int|
                    0 <= i < n && (orig.spec_slots()[i].state is Processing) ==> self.spec_slots()[i]
                        == #[trigger] orig.spec_slots()[i],
                traces.len() == n,
                forall|i: int|
                    0 <= i < n && !((#[trigger] orig.spec_slots()[i]).state is NonExistent) && (
                    !spec_has_closed_for(cs0, orig.spec_slots()[i].id) || !spec_has_accept(cs0))
                        ==> {
                        &&& spec_completions_trace(
                            spec_addressed(
                                cs0.subrange(0, cs0.len() - comps@.len()),
                                orig.spec_slots()[i].id,
                            ),
                            now,
                            orig.spec_max_body(),
                            traces[i],
                        )
                        &&& traces[i].len() >= 1
                        &&& traces[i][0] == orig.spec_slots()[i]
                        &&& traces[i].last() == self.spec_slots()[i]
                    },
            decreases comps@.len(),
        {
            let ghost done: int = cs0.len() - comps@.len();
            let ghost pre_self = *self;
            let ghost traces_pre = traces;
            let c = comps.remove(0);
            let ghost cg = c;
            proof {
                assert(cg == cs0[done]);
                assert(comps@ =~= cs0.subrange(done + 1, cs0.len() as int));
            }
            self.step_completion(c, now);
            proof {
                let taken_old = cs0.subrange(0, done);
                let taken_new = cs0.subrange(0, done + 1);
                let mb = orig.spec_max_body();
                assert(taken_new =~= taken_old.push(cg));
                traces = Seq::new(
                    n as nat,
                    |i: int|
                        if spec_completion_id(cg) == Some(orig.spec_slots()[i].id) {
                            traces_pre[i].push(self.spec_slots()[i])
                        } else {
                            traces_pre[i]
                        },
                );
                assert forall|i: int|
                    0 <= i < n && !((#[trigger] orig.spec_slots()[i]).state is NonExistent) && (
                    !spec_has_closed_for(cs0, orig.spec_slots()[i].id) || !spec_has_accept(
                        cs0,
                    )) implies {
                    &&& spec_completions_trace(
                        spec_addressed(taken_new, orig.spec_slots()[i].id),
                        now,
                        mb,
                        traces[i],
                    )
                    &&& traces[i].len() >= 1
                    &&& traces[i][0] == orig.spec_slots()[i]
                    &&& traces[i].last() == self.spec_slots()[i]
                } by {
                    let idv = orig.spec_slots()[i].id;
                    let tr = traces_pre[i];
                    let a_old = spec_addressed(taken_old, idv);
                    lemma_addressed_push(taken_old, cg, idv);
                    assert(spec_completions_trace(a_old, now, mb, tr));
                    lemma_trace_keeps_id(a_old, now, mb, tr);
                    assert(pre_self.spec_slots()[i].id == idv);
                    if spec_completion_id(cg) == Some(idv) {
                        let a_new = spec_addressed(taken_new, idv);
                        assert(a_new == a_old.push(cg));
                        let tr2 = tr.push(self.spec_slots()[i]);
                        assert(traces[i] == tr2);
                        assert(spec_completion_step(
                            pre_self.spec_slots()[i],
                            cg,
                            now,
                            mb,
                            self.spec_slots()[i],
                        ));
                        assert forall|k: int| 0 <= k < a_new.len() implies spec_completion_step(
                            tr2[k],
                            #[trigger] a_new[k],
                            now,
                            mb,
                            tr2[k + 1],
                        ) by {
                            if k < a_old.len() {
                                assert(a_new[k] == a_old[k]);
                                assert(tr2[k] == tr[k]);
                                assert(tr2[k + 1] == tr[k + 1]);
                                assert(spec_completion_step(tr[k], a_old[k], now, mb, tr[k + 1]));
                            } else {
                                assert(a_new[k] == cg);
                                assert(tr2[k] == tr.last());
                                assert(tr2[k + 1] == self.spec_slots()[i]);
                            }
                        }
                        assert(spec_completions_trace(a_new, now, mb, tr2));
                    } else {
                        assert(spec_addressed(taken_new, idv) == a_old);
                        assert(traces[i] == tr);
                        // this completion routes elsewhere: the slot is
                        // untouched
                        match cg {
                            Completion::Accepted { ok } => {
                                if ok {
                                    assert(spec_has_accept(cs0)) by {
                                        assert(cs0[done] matches Completion::Accepted { ok: o }
                                            && o);
                                    }
                                    assert(!spec_has_closed_for(cs0, idv));
                                    assert(!spec_has_closed_for(taken_old, idv)) by {
                                        if spec_has_closed_for(taken_old, idv) {
                                            let k0 = choose|k: int|
                                                0 <= k < taken_old.len() && ((
                                                #[trigger] taken_old[k])
                                                    matches Completion::Closed { client_id }
                                                    && client_id == idv);
                                            assert(taken_old[k0] == cs0[k0]);
                                        }
                                    }
                                    lemma_addressed_no_closed(taken_old, idv);
                                    lemma_trace_keeps_live(a_old, now, mb, tr);
                                    assert(!(pre_self.spec_slots()[i].state is NonExistent));
                                    assert(self.spec_slots()[i] == pre_self.spec_slots()[i]);
                                } else {
                                    assert(self.spec_slots()[i] == pre_self.spec_slots()[i]);
                                }
                            },
                            _ => {
                                assert(self.spec_slots()[i] == pre_self.spec_slots()[i]);
                            },
                        }
                    }
                }
            }
        }
        proof {
            assert(cs0.subrange(0, cs0.len() as int) =~= cs0);
            assert forall|i: int|
                0 <= i < n && !((#[trigger] orig.spec_slots()[i]).state is NonExistent) && (
                !spec_has_closed_for(cs0, orig.spec_slots()[i].id) || !spec_has_accept(cs0))
                implies exists|tr: Seq<ClientRecord>|
                {
                    &&& #[trigger] spec_completions_trace(
                        spec_addressed(cs0, orig.spec_slots()[i].id),
                        now,
                        orig.spec_max_body(),
                        tr,
                    )
                    &&& tr.len() >= 1
                    &&& tr[0] == orig.spec_slots()[i]
                    &&& tr.last() == self.spec_slots()[i]
                } by {
                assert(spec_completions_trace(
                    spec_addressed(cs0, orig.spec_slots()[i].id),
                    now,
                    orig.spec_max_body(),
                    traces[i],
                ));
            }
        }
    }
}

/// A `Write` submission is sound for record table `recs` (indices below
/// `bound`): some record mid-write answers to its id, and the data is
/// exactly the not-yet-written suffix of that record's framed response.
pub open spec fn spec_write_sub_ok(s: Submission, recs: Seq<ClientRecord>, bound: int) -> bool {
    s matches Submission::Write { client_id, data } ==> exists|i2: int|
        {
            &&& 0 <= i2 < bound
            &&& (#[trigger] recs[i2]).id == client_id
            &&& recs[i2].state is WrittingSock
            &&& data@ == spec_frame_bytes(
                recs[i2].resp_headers.compr_alg,
                recs[i2].response@,
            ).subrange(recs[i2].writev_offset as int, 9 + recs[i2].response@.len() as int)
        }
}

/// A `Read` submission is sound for record table `recs` (indices below
/// `bound`): some record mid-header or mid-body answers to its id, and
/// `max` is exactly what that record still needs.
pub open spec fn spec_read_sub_ok(s: Submission, recs: Seq<ClientRecord>, bound: int) -> bool {
    s matches Submission::Read { client_id, max } ==> exists|i2: int|
        {
            &&& 0 <= i2 < bound
            &&& (#[trigger] recs[i2]).id == client_id
            &&& max > 0
            &&& ((recs[i2].state is HeadersReaden && max == 9 - recs[i2].header_buf@.len()) || (
            recs[i2].state is Reading && max == recs[i2].req_headers.size
                - recs[i2].request@.len()))
        }
}

/// A `Close` submission is sound for record table `recs` (indices below
/// `bound`): some killed record answers to its id.
pub open spec fn spec_close_sub_ok(s: Submission, recs: Seq<ClientRecord>, bound: int) -> bool {
    s matches Submission::Close { client_id } ==> exists|i2: int|
        {
            &&& 0 <= i2 < bound
            &&& (#[trigger] recs[i2]).id == client_id
            &&& recs[i2].state is Kill
        }
}

/// Submission soundness carries to a table that agrees below the old
/// bound.
proof fn lemma_sub_ok_extend(
    s: Submission,
    pre: Seq<ClientRecord>,
    cur: Seq<ClientRecord>,
    bound: int,
    bound2: int,
)
    requires
        0 <= bound <= bound2,
        forall|m: int| 0 <= m < bound ==> cur[m] == #[trigger] pre[m],
        spec_write_sub_ok(s, pre, bound),
        spec_close_sub_ok(s, pre, bound),
        spec_read_sub_ok(s, pre, bound),
    ensures
        spec_write_sub_ok(s, cur, bound2),
        spec_close_sub_ok(s, cur, bound2),
        spec_read_sub_ok(s, cur, bound2),
{
    match s {
        Submission::Write { client_id, data } => {
            let k = choose|i2: int|
                {
                    &&& 0 <= i2 < bound
                    &&& (#[trigger] pre[i2]).id == client_id
                    &&& pre[i2].state is WrittingSock
                    &&& data@ == spec_frame_bytes(
                        pre[i2].resp_headers.compr_alg,
                        pre[i2].response@,
                    ).subrange(pre[i2].writev_offset as int, 9 + pre[i2].response@.len() as int)
                };
            assert(cur[k] == pre[k]);
        },
        Submission::Close { client_id } => {
            let k = choose|i2: int|
                {
                    &&& 0 <= i2 < bound
                    &&& (#[trigger] pre[i2]).id == client_id
                    &&& pre[i2].state is Kill
                };
            assert(cur[k] == pre[k]);
        },
        Submission::Read { client_id, max } => {
            let k = choose|i2: int|
                {
                    &&& 0 <= i2 < bound
                    &&& (#[trigger] pre[i2]).id == client_id
                    &&& max > 0
                    &&& ((pre[i2].state is HeadersReaden && max == 9 - pre[i2].header_buf@.len())
                        || (pre[i2].state is Reading && max == pre[i2].req_headers.size
                            - pre[i2].request@.len()))
                };
            assert(cur[k] == pre[k]);
        },
        _ => {},
    }
}

impl Networker {
    /// The idle sweep: every record that is neither free, held by the
    /// application, nor already dying, and whose last activity lies
    /// beyond the idle window, is killed; every other record is left
    /// alone.
    fn sweep_idle(&mut self, now: u64)
        requires
            old(self).wf(),
            old(self).spec_initialized(),
        ensures
            final(self).wf(),
            final(self).spec_initialized(),
            final(self).spec_settings() == old(self).spec_settings(),
            final(self).spec_slots().len() == old(self).spec_slots().len(),
            final(self).spec_author_log() == old(self).spec_author_log(),
            final(self).spec_client_num() == old(self).spec_client_num(),
            final(self).spec_accept_pending() == old(self).spec_accept_pending(),
            forall|i: int|
                0 <= i < old(self).spec_slots().len() ==> spec_sweep_step(
                    #[trigger] old(self).spec_slots()[i],
                    now,
                    old(self).spec_idle_timeout(),
                    final(self).spec_slots()[i],
                ),
    {
        let ghost orig = *old(self);
        let idle = self.settings.idle_timeout;
        let n = self.slots.len();
        let mut i: usize = 0;
        while i < n
            invariant
                i <= n,
                self.wf(),
                self.spec_initialized(),
                self.spec_settings() == orig.spec_settings(),
                self.spec_slots().len() == orig.spec_slots().len(),
                self.spec_author_log() == orig.spec_author_log(),
                self.spec_client_num() == orig.spec_client_num(),
                self.spec_accept_pending() == orig.spec_accept_pending(),
                n == orig.spec_slots().len(),
                idle == orig.spec_idle_timeout(),
                forall|i2: int|
                    0 <= i2 < i ==> spec_sweep_step(
                        #[trigger] orig.spec_slots()[i2],
                        now,
                        idle,
                        self.spec_slots()[i2],
                    ),
                forall|i2: int|
                    i <= i2 < n ==> self.spec_slots()[i2] == #[trigger] orig.spec_slots()[i2],
            decreases n - i,
        {
            let st = self.slots[i].state;
            let live = !(st == State::NonExistent) && !(st == State::Processing) && !(st
                == State::Kill);
            if live && now >= self.slots[i].activity && now - self.slots[i].activity > idle {
                self.kill_slot(i);
            }
            i = i + 1;
        }
    }

    /// The submission pass: re-arm the accept, close refused
    /// connections, and give every record that can act its next
    /// operation, per `spec_dispatch_step`; the operations owed are
    /// promised by `spec_emitted_for` and sound per the three
    /// submission predicates.
    #[verifier::rlimit(100)]
    fn dispatch(&mut self) -> (subs: Vec<Submission>)
        requires
            old(self).wf(),
            old(self).spec_initialized(),
        ensures
            final(self).wf(),
            final(self).spec_initialized(),
            final(self).spec_settings() == old(self).spec_settings(),
            final(self).spec_slots().len() == old(self).spec_slots().len(),
            final(self).spec_author_log() == old(self).spec_author_log(),
            final(self).spec_client_num() == old(self).spec_client_num(),
            final(self).spec_accept_pending(),
            !old(self).spec_accept_pending() ==> exists|j: int|
                0 <= j < subs@.len() && (#[trigger] subs@[j]) is Accept,
            forall|i: int|
                0 <= i < old(self).spec_slots().len() ==> spec_dispatch_step(
                    #[trigger] old(self).spec_slots()[i],
                    final(self).spec_slots()[i],
                ),
            forall|i: int|
                0 <= i < old(self).spec_slots().len() ==> spec_emitted_for(
                    #[trigger] old(self).spec_slots()[i],
                    subs@,
                ),
            forall|j: int|
                0 <= j < subs@.len() ==> spec_write_sub_ok(
                    #[trigger] subs@[j],
                    final(self).spec_slots(),
                    final(self).spec_slots().len() as int,
                ) && spec_close_sub_ok(
                    subs@[j],
                    final(self).spec_slots(),
                    final(self).spec_slots().len() as int,
                ) && spec_read_sub_ok(
                    subs@[j],
                    final(self).spec_slots(),
                    final(self).spec_slots().len() as int,
                ),
    {
        let ghost orig = *old(self);
        let n = self.slots.len();
        let mut subs: Vec<Submission> = Vec::new();
        if !self.accept_pending {
            subs.push(Submission::Accept);
            self.accept_pending = true;
        }
        while self.pending_rejects > 0
            invariant
                self.wf(),
                self.spec_initialized(),
                self.spec_settings() == orig.spec_settings(),
                self.spec_slots() == orig.spec_slots(),
                self.spec_author_log() == orig.spec_author_log(),
                self.spec_client_num() == orig.spec_client_num(),
                self.spec_accept_pending(),
                !orig.spec_accept_pending() ==> (subs@.len() >= 1 && subs@[0] is Accept),
                forall|j: int|
                    0 <= j < subs@.len() ==> !((#[trigger] subs@[j]) is Write) && !(subs@[j]
                        is Close) && !(subs@[j] is Read),
            decreases self.pending_rejects,
        {
            subs.push(Submission::Reject);
            self.pending_rejects = self.pending_rejects - 1;
        }
        let ghost mid = *self;
        let mut i: usize = 0;
        while i < n
            invariant
                i <= n,
                self.wf(),
                self.spec_initialized(),
                self.spec_settings() == mid.spec_settings(),
                self.spec_slots().len() == mid.spec_slots().len(),
                n == mid.spec_slots().len(),
                mid.spec_slots() == orig.spec_slots(),
                mid.wf(),
                self.spec_accept_pending(),
                self.spec_accept_pending() == mid.spec_accept_pending(),
                self.spec_client_num() == mid.spec_client_num(),
                self.spec_author_log() == mid.spec_author_log(),
                !orig.spec_accept_pending() ==> (subs@.len() >= 1 && subs@[0] is Accept),
                forall|i2: int| i <= i2 < n ==> self.spec_slots()[i2] == #[trigger] mid.spec_slots()[i2],
                forall|i2: int|
                    0 <= i2 < i ==> spec_dispatch_step(
                        #[trigger] mid.spec_slots()[i2],
                        self.spec_slots()[i2],
                    ),
                forall|i2: int|
                    0 <= i2 < i ==> spec_emitted_for(#[trigger] mid.spec_slots()[i2], subs@),
                forall|j: int|
                    0 <= j < subs@.len() ==> spec_write_sub_ok(
                        #[trigger] subs@[j],
                        self.spec_slots(),
                        i as int,
                    ) && spec_close_sub_ok(subs@[j], self.spec_slots(), i as int)
                        && spec_read_sub_ok(subs@[j], self.spec_slots(), i as int),
            decreases n - i,
        {
            let ghost pre_slots = self.spec_slots();
            let ghost pre_subs = subs@;
            let ghost ii = i as int;
            let st = self.slots[i].state;
            let id = self.author_log[i];
            if st == State::Idle {
                let rec = &mut self.slots[i];
                rec.header_buf = Vec::new();
                rec.recv_offset = 0;
                rec.state = State::HeadersReaden;
                rec.io_pending = true;
                subs.push(Submission::Read { client_id: id, max: 9 });
                proof {
                    assert(self.spec_slots()[ii].state is HeadersReaden);
                    assert(spec_read_sub_ok(subs@.last(), self.spec_slots(), ii + 1));
                }
            } else if st == State::HeadersReaden && !self.slots[i].io_pending {
                let have = self.slots[i].header_buf.len();
                let rec = &mut self.slots[i];
                rec.io_pending = true;
                subs.push(Submission::Read { client_id: id, max: 9 - have });
                proof {
                    assert(spec_read_sub_ok(subs@.last(), self.spec_slots(), ii + 1));
                }
            } else if st == State::Reading && !self.slots[i].io_pending {
                let need = self.slots[i].req_headers.size - self.slots[i].request.len() as u64;
                let rec = &mut self.slots[i];
                rec.io_pending = true;
                subs.push(Submission::Read { client_id: id, max: need as usize });
                proof {
                    assert(spec_read_sub_ok(subs@.last(), self.spec_slots(), ii + 1));
                }
            } else if st == State::FinishedH {
                if self.slots[i].req_headers.size == 0 {
                    let rec = &mut self.slots[i];
                    rec.request = Vec::new();
                    rec.recv_offset = 0;
                    rec.state = State::FinishedR;
                } else {
                    let size = self.slots[i].req_headers.size;
                    let rec = &mut self.slots[i];
                    rec.request = Vec::new();
                    rec.recv_offset = 0;
                    rec.state = State::Reading;
                    rec.io_pending = true;
                    subs.push(Submission::Read { client_id: id, max: size as usize });
                    proof {
                        assert(self.spec_slots()[ii].state is Reading);
                        assert(spec_read_sub_ok(subs@.last(), self.spec_slots(), ii + 1));
                    }
                }
            } else if st == State::FinishedR {
                let rec = &mut self.slots[i];
                rec.state = State::Available;
            } else if st == State::Ready || (st == State::WrittingSock && !self.slots[i].io_pending) {
                let frame = encode_frame(
                    self.slots[i].resp_headers.compr_alg,
                    &self.slots[i].response,
                );
                let off = self.slots[i].writev_offset;
                let data = vstd::slice::slice_to_vec(
                    vstd::slice::slice_subrange(frame.as_slice(), off, frame.len()),
                );
                let ghost dv = data@;
                let rec = &mut self.slots[i];
                rec.state = State::WrittingSock;
                rec.io_pending = true;
                subs.push(Submission::Write { client_id: id, data });
                proof {
                    assert(self.spec_slots()[ii].state is WrittingSock);
                    assert(dv == spec_frame_bytes(
                        self.spec_slots()[ii].resp_headers.compr_alg,
                        self.spec_slots()[ii].response@,
                    ).subrange(
                        self.spec_slots()[ii].writev_offset as int,
                        9 + self.spec_slots()[ii].response@.len() as int,
                    ));
                    assert(spec_write_sub_ok(subs@.last(), self.spec_slots(), ii + 1));
                }
            } else if st == State::FinishedWS {
                let rec = &mut self.slots[i];
                rec.response = Vec::new();
                rec.resp_headers = MessageHeaders { size: 0, compr_alg: 0 };
                rec.request = Vec::new();
                rec.header_buf = Vec::new();
                rec.recv_offset = 0;
                rec.writev_offset = 0;
                rec.state = State::Idle;
            } else if st == State::Kill && !self.slots[i].close_submitted {
                let rec = &mut self.slots[i];
                rec.close_submitted = true;
                subs.push(Submission::Close { client_id: id });
                proof {
                    assert(self.spec_slots()[ii].state is Kill);
                    assert(spec_close_sub_ok(subs@.last(), self.spec_slots(), ii + 1));
                }
            }
            i = i + 1;
            proof {
                assert forall|m: int| 0 <= m < ii implies self.spec_slots()[m] == pre_slots[m] by {}
                assert(spec_dispatch_step(mid.spec_slots()[ii], self.spec_slots()[ii]));
                assert(spec_emitted_for(mid.spec_slots()[ii], subs@));
                assert forall|i2: int| 0 <= i2 < ii implies spec_emitted_for(
                    #[trigger] mid.spec_slots()[i2],
                    subs@,
                ) by {
                    lemma_emitted_monotone(mid.spec_slots()[i2], pre_subs, subs@);
                }
                assert forall|j: int| 0 <= j < subs@.len() implies spec_write_sub_ok(
                    #[trigger] subs@[j],
                    self.spec_slots(),
                    i as int,
                ) && spec_close_sub_ok(subs@[j], self.spec_slots(), i as int)
                    && spec_read_sub_ok(subs@[j], self.spec_slots(), i as int) by {
                    if j < pre_subs.len() {
                        assert(subs@[j] == pre_subs[j]);
                        assert(spec_write_sub_ok(pre_subs[j], pre_slots, ii));
                        assert(spec_close_sub_ok(pre_subs[j], pre_slots, ii));
                        assert(spec_read_sub_ok(pre_subs[j], pre_slots, ii));
                        lemma_sub_ok_extend(pre_subs[j], pre_slots, self.spec_slots(), ii, i as int);
                    } else {
                        assert(subs@[j] == subs@.last());
                    }
                }
            }
        }
        proof {
            if !orig.spec_accept_pending() {
                assert(subs@[0] is Accept);
            }
        }
        subs
    }

    /// One reactor cycle: drain the delivered completions in order,
    /// sweep for idle records, and emit the next batch of submissions.
    ///
    /// The contract composes the three phases exactly, record by
    /// record:
    /// - every record that was live when the batch arrived ends where
    ///   chaining `spec_completion_step` over the completions addressed
    ///   to its id, then `spec_sweep_step`, then `spec_dispatch_step`
    ///   leads, and `spec_emitted_for` promises it its next operation
    ///   (so a full header is admitted exactly at `size <= cap`, an
    ///   oversized one kills the record, partial reads and writes get
    ///   their continuation, and a stale-id completion is discarded);
    /// - a record in `Processing` (a handle is out) is neither read nor
    ///   changed;
    /// - after the cycle every record that is neither `NonExistent`,
    ///   `Processing` nor `Kill` has activity within the idle window:
    ///   anything staler was killed;
    /// - a `Write` submission is emitted only for a record mid-write,
    ///   and carries exactly the not-yet-written suffix of its framed
    ///   response, so no bytes are ever sent for a killed record; a
    ///   `Close` only for a killed record; a `Read` only for a record
    ///   mid-header or mid-body, asking for exactly the bytes it still
    ///   needs;
    /// - one accept is left outstanding, and is emitted now if none
    ///   was.
    pub fn cycle(&mut self, completions: Vec<Completion>, now: u64) -> (subs: Vec<Submission>)
        requires
            old(self).wf(),
            old(self).spec_initialized(),
        ensures
            final(self).wf(),
            final(self).spec_initialized(),
            final(self).spec_settings() == old(self).spec_settings(),
            final(self).spec_slots().len() == old(self).spec_slots().len(),
            forall|i: int|
                0 <= i < old(self).spec_slots().len() && (old(self).spec_slots()[i].state
                    is Processing) ==> final(self).spec_slots()[i] == #[trigger] old(self).spec_slots()[i],
            forall|i: int|
                0 <= i < final(self).spec_slots().len() && !((#[trigger] final(self).spec_slots()[i]).state is NonExistent) && !(final(self).spec_slots()[i].state
                    is Processing) && !(final(self).spec_slots()[i].state is Kill) ==> now as int
                    <= final(self).spec_slots()[i].activity as int + old(self).spec_idle_timeout() as int,
            forall|i: int|
                0 <= i < old(self).spec_slots().len() && !((#[trigger] old(self).spec_slots()[i]).state
                    is NonExistent) && (!spec_has_closed_for(
                    completions@,
                    old(self).spec_slots()[i].id,
                ) || !spec_has_accept(completions@)) ==> exists|tr: Seq<ClientRecord>, b: ClientRecord|
                    #![trigger spec_completions_trace(
                        spec_addressed(completions@, old(self).spec_slots()[i].id),
                        now,
                        old(self).spec_max_body(),
                        tr,
                    ), spec_emitted_for(b, subs@)]
                    {
                        &&& spec_completions_trace(
                            spec_addressed(completions@, old(self).spec_slots()[i].id),
                            now,
                            old(self).spec_max_body(),
                            tr,
                        )
                        &&& tr.len() >= 1
                        &&& tr[0] == old(self).spec_slots()[i]
                        &&& spec_sweep_step(tr.last(), now, old(self).spec_idle_timeout(), b)
                        &&& spec_dispatch_step(b, final(self).spec_slots()[i])
                        &&& spec_emitted_for(b, subs@)
                    },
            forall|j: int|
                0 <= j < subs@.len() ==> spec_write_sub_ok(
                    #[trigger] subs@[j],
                    final(self).spec_slots(),
                    final(self).spec_slots().len() as int,
                ) && spec_close_sub_ok(
                    subs@[j],
                    final(self).spec_slots(),
                    final(self).spec_slots().len() as int,
                ) && spec_read_sub_ok(
                    subs@[j],
                    final(self).spec_slots(),
                    final(self).spec_slots().len() as int,
                ),
            final(self).spec_accept_pending(),
            !old(self).spec_accept_pending() ==> exists|j: int|
                0 <= j < subs@.len() && (#[trigger] subs@[j]) is Accept,
    {
        let ghost orig = *old(self);
        let ghost cs0 = completions@;
        self.drain_completions(completions, now);
        let ghost after_comp = *self;
        self.sweep_idle(now);
        let ghost after_sweep = *self;
        let subs = self.dispatch();
        proof {
            let n = orig.spec_slots().len() as int;
            let idle = orig.spec_idle_timeout();
            assert forall|i: int|
                0 <= i < n && (orig.spec_slots()[i].state is Processing) implies self.spec_slots()[i]
                == #[trigger] orig.spec_slots()[i] by {
                assert(after_comp.spec_slots()[i] == orig.spec_slots()[i]);
                assert(spec_sweep_step(after_comp.spec_slots()[i], now, idle, after_sweep.spec_slots()[i]));
                assert(spec_dispatch_step(after_sweep.spec_slots()[i], self.spec_slots()[i]));
            }
            assert forall|i: int|
                0 <= i < n && !((#[trigger] self.spec_slots()[i]).state is NonExistent) && !(
                self.spec_slots()[i].state is Processing) && !(self.spec_slots()[i].state is Kill)
                implies now as int <= self.spec_slots()[i].activity as int + idle as int by {
                assert(spec_sweep_step(after_comp.spec_slots()[i], now, idle, after_sweep.spec_slots()[i]));
                assert(spec_dispatch_step(after_sweep.spec_slots()[i], self.spec_slots()[i]));
            }
            assert forall|i: int|
                0 <= i < n && !((#[trigger] orig.spec_slots()[i]).state is NonExistent) && (
                !spec_has_closed_for(cs0, orig.spec_slots()[i].id) || !spec_has_accept(cs0))
                implies exists|tr: Seq<ClientRecord>, b: ClientRecord|
                #![trigger spec_completions_trace(
                    spec_addressed(cs0, orig.spec_slots()[i].id),
                    now,
                    orig.spec_max_body(),
                    tr,
                ), spec_emitted_for(b, subs@)]
                {
                    &&& spec_completions_trace(
                        spec_addressed(cs0, orig.spec_slots()[i].id),
                        now,
                        orig.spec_max_body(),
                        tr,
                    )
                    &&& tr.len() >= 1
                    &&& tr[0] == orig.spec_slots()[i]
                    &&& spec_sweep_step(tr.last(), now, idle, b)
                    &&& spec_dispatch_step(b, self.spec_slots()[i])
                    &&& spec_emitted_for(b, subs@)
                } by {
                let tr = choose|tr: Seq<ClientRecord>|
                    {
                        &&& #[trigger] spec_completions_trace(
                            spec_addressed(cs0, orig.spec_slots()[i].id),
                            now,
                            orig.spec_max_body(),
                            tr,
                        )
                        &&& tr.len() >= 1
                        &&& tr[0] == orig.spec_slots()[i]
                        &&& tr.last() == after_comp.spec_slots()[i]
                    };
                let b = after_sweep.spec_slots()[i];
                assert(spec_sweep_step(tr.last(), now, idle, b));
                assert(spec_dispatch_step(b, self.spec_slots()[i]));
                assert(spec_emitted_for(b, subs@));
            }
        }
        subs
    }
}

/// The rank of a record state along the post-`Available` path/// The rank of a record state along the post-`Available` path: it
/// strictly falls on every progress step until `Idle` or `Kill`.
pub open spec fn spec_state_rank(s: State) -> nat {
    match s {
        State::Available => 5,
        State::Processing => 4,
        State::Ready => 3,
        State::WrittingSock => 2,
        State::FinishedWS => 1,
        _ => 0,
    }
}

/// The record state machine's edges from `Available` onward: the
/// application takes the record, applies a response, the response is
/// written, and the record returns to `Idle`; any step may instead kill
/// the record (an error, a timeout, or a dropped handle).
pub open spec fn spec_progress_step(pre: State, post: State) -> bool {
    ||| (pre is Available && (post is Processing || post is Kill))
    ||| (pre is Processing && (post is Ready || post is Kill))
    ||| (pre is Ready && (post is WrittingSock || post is Kill))
    ||| (pre is WrittingSock && (post is FinishedWS || post is Kill))
    ||| (pre is FinishedWS && (post is Idle || post is Kill))
}

/// The contracted phases walk the machine's post-`Available` edges:
/// the submission pass moves `Ready` to `WrittingSock` and `FinishedWS`
/// to `Idle`, a completed write moves `WrittingSock` to `FinishedWS` or
/// kills it, and the sweep's only move is a kill — each one a
/// `spec_progress_step`.  The remaining edges, `Available` to
/// `Processing` and `Processing` to `Ready` or `Kill`, are
/// `get_client`'s, `apply_response`'s and `kill`'s contracts, so
/// `lemma_available_progress` bounds the cycles a record spends between
/// `Available` and its rest state.
pub proof fn lemma_cycle_walks_the_machine(
    pre: ClientRecord,
    post: ClientRecord,
    c: Completion,
    now: u64,
    max_body: u32,
    idle: u64,
)
    ensures
        (spec_dispatch_step(pre, post) && pre.state is Ready) ==> spec_progress_step(
            pre.state,
            post.state,
        ),
        (spec_dispatch_step(pre, post) && pre.state is FinishedWS) ==> spec_progress_step(
            pre.state,
            post.state,
        ),
        (spec_completion_step(pre, c, now, max_body, post) && pre.state is WrittingSock
            && post.state != pre.state) ==> spec_progress_step(pre.state, post.state),
        (spec_sweep_step(pre, now, idle, post) && pre.state is Available && post.state
            != pre.state) ==> spec_progress_step(pre.state, post.state),
{
}

/// A record that reached `Available` reaches `Kill` or `Idle` within
/// five progress steps: under bounded application latency (the handle
/// holder eventually applies or drops) and finite writes (a write
/// completes or the record is killed), every step of the path is a
/// progress edge until the record rests.
pub proof fn lemma_available_progress(path: Seq<State>)
    requires
        path.len() >= 6,
        path[0] is Available,
        forall|i: int|
            0 <= i < path.len() - 1 ==> (spec_progress_step(#[trigger] path[i], path[i + 1])
                || path[i] is Idle || path[i] is Kill),
    ensures
        exists|i: int| 0 <= i < 6 && ((#[trigger] path[i]) is Idle || path[i] is Kill),
{
    if !(path[1] is Kill) {
        assert(spec_progress_step(path[0], path[1]));
        assert(path[1] is Processing);
        if !(path[2] is Kill) {
            assert(spec_progress_step(path[1], path[2]));
            assert(path[2] is Ready);
            if !(path[3] is Kill) {
                assert(spec_progress_step(path[2], path[3]));
                assert(path[3] is WrittingSock);
                if !(path[4] is Kill) {
                    assert(spec_progress_step(path[3], path[4]));
                    assert(path[4] is FinishedWS);
                    assert(spec_progress_step(path[4], path[5]) || path[4] is Idle || path[4]
                        is Kill);
                    assert(path[5] is Idle || path[5] is Kill);
                }
            }
        }
    }
}

} // verus!
