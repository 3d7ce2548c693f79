//! Guard that keeps reads from stdin away from a database open.
//!
//! Opening a database makes IDA look at stdin. A read that is pending on the same handle
//! then blocks IDA until the client closes the pipe, so no read is started from the moment
//! an open is asked for until it is answered; where several are pending, until the last of
//! them is. Where the server itself asks the client something meanwhile, reads go on until
//! that answer has come.

use crate::text::text_eq;
use vstd::prelude::*;
use vstd::string::*;

verus! {

/// The id of a JSON-RPC request.
#[derive(Debug, Clone, PartialEq, Eq)]
pub enum RequestId<T = String> {
    Number(i64),
    Text(T),
}

impl View for RequestId<String> {
    type V = RequestId<Seq<char>>;

    open spec fn view(&self) -> RequestId<Seq<char>> {
        match self {
            RequestId::Number(n) => RequestId::Number(*n),
            RequestId::Text(text) => RequestId::Text(text@),
        }
    }
}

/// The view of an id, where there is one.
pub open spec fn id_view(id: Option<RequestId>) -> Option<RequestId<Seq<char>>> {
    match id {
        Some(id) => Some(id@),
        None => None,
    }
}

impl RequestId<String> {
    /// The same id once more.
    pub fn duplicate(&self) -> (r: RequestId)
        ensures
            r@ == self@,
    {
        match self {
            RequestId::Number(n) => RequestId::Number(*n),
            RequestId::Text(text) => RequestId::Text(text.clone()),
        }
    }

    /// Whether two ids are the same.
    pub fn same(&self, other: &RequestId) -> (r: bool)
        ensures
            r == (self@ == other@),
    {
        match (self, other) {
            (RequestId::Number(a), RequestId::Number(b)) => *a == *b,
            (RequestId::Text(a), RequestId::Text(b)) => text_eq(a.as_str(), b.as_str()),
            _ => false,
        }
    }
}

/// What the guard sees of a message from the client.
#[derive(Debug, Clone)]
pub enum InboundMessage {
    /// A call of the tool of that name.
    ToolCall { id: RequestId, tool: String },
    /// Any other request.
    Request { id: RequestId },
    Response { id: RequestId },
    Error { id: Option<RequestId> },
    Notification,
}

/// What the guard sees of a message to the client.
#[derive(Debug, Clone)]
pub enum OutboundMessage {
    Request { id: RequestId },
    Response { id: RequestId },
    Error { id: Option<RequestId> },
    Notification,
}

/// The id of a request to open a database.
pub open spec fn open_request(message: InboundMessage) -> Option<RequestId<Seq<char>>> {
    match message {
        InboundMessage::ToolCall { id, tool } if tool@ == "open_idb"@ => Some(id@),
        _ => None,
    }
}

/// The id of the request that an inbound message answers.
pub open spec fn inbound_response(message: InboundMessage) -> Option<RequestId<Seq<char>>> {
    match message {
        InboundMessage::Response { id } => Some(id@),
        InboundMessage::Error { id } => id_view(id),
        _ => None,
    }
}

/// The id of the request that an outbound message answers.
pub open spec fn outbound_response(message: OutboundMessage) -> Option<RequestId<Seq<char>>> {
    match message {
        OutboundMessage::Response { id } => Some(id@),
        OutboundMessage::Error { id } => id_view(id),
        _ => None,
    }
}

/// The id of a request to the client.
pub open spec fn outbound_request(message: OutboundMessage) -> Option<RequestId<Seq<char>>> {
    match message {
        OutboundMessage::Request { id } => Some(id@),
        _ => None,
    }
}

/// The opens that are not answered yet, and the request to the client that they wait for.
pub struct Gate {
    pub opens: Set<RequestId<Seq<char>>>,
    pub peer: Option<RequestId<Seq<char>>>,
}

impl Gate {
    /// The guard with no open pending.
    pub open spec fn idle() -> Gate {
        Gate { opens: Set::empty(), peer: None }
    }

    /// Whether an open is pending.
    pub open spec fn has_open(self) -> bool {
        self.opens != Set::<RequestId<Seq<char>>>::empty()
    }

    /// Whether stdin may be read.
    pub open spec fn may_read(self) -> bool {
        !self.has_open() || self.peer is Some
    }

    /// A request to the client is waited for only while an open is pending.
    pub open spec fn wf(self) -> bool {
        self.peer is Some ==> self.has_open()
    }

    /// Once a message has come in: an answer that was waited for ends that wait, and a
    /// request to open a database pauses reads.
    pub open spec fn received(self, message: InboundMessage) -> Gate {
        Gate {
            opens: match open_request(message) {
                Some(id) => self.opens.insert(id),
                None => self.opens,
            },
            peer: if inbound_response(message) is Some && self.peer == inbound_response(message) {
                None
            } else {
                self.peer
            },
        }
    }

    /// Whether sending `item` is a request to the client that a pending open waits for.
    pub open spec fn asks_peer(self, item: OutboundMessage, delivered: bool) -> bool {
        delivered && outbound_request(item) is Some && self.has_open()
    }

    /// Whether `item` answers a pending open.
    pub open spec fn answers_open(self, item: OutboundMessage) -> bool {
        outbound_response(item) matches Some(id) && self.opens.contains(id)
    }

    /// Once a message was sent: the answer to an open ends that open, and the last one ends
    /// the wait for the client too; a request to the client lets reads go on while it is
    /// pending.
    pub open spec fn sent(self, item: OutboundMessage, delivered: bool) -> Gate {
        if self.answers_open(item) {
            let opens = self.opens.remove(outbound_response(item)->0);
            Gate {
                opens,
                peer: if opens == Set::<RequestId<Seq<char>>>::empty() {
                    None
                } else {
                    self.peer
                },
            }
        } else if self.asks_peer(item, delivered) {
            Gate { opens: self.opens, peer: outbound_request(item) }
        } else {
            self
        }
    }
}

/// The set of the ids in a list.
pub open spec fn ids_view(ids: Seq<RequestId>) -> Set<RequestId<Seq<char>>> {
    ids.map_values(|id: RequestId| id@).to_set()
}

proof fn lemma_ids_contain(ids: Seq<RequestId>, id: RequestId<Seq<char>>)
    ensures
        ids_view(ids).contains(id) <==> exists|i: int|
            0 <= i < ids.len() && (#[trigger] ids[i])@ == id,
{
    let views = ids.map_values(|id: RequestId| id@);
    if ids_view(ids).contains(id) {
        let i = choose|i: int| 0 <= i < views.len() && views[i] == id;
        assert(ids[i]@ == id);
    }
    if exists|i: int| 0 <= i < ids.len() && (#[trigger] ids[i])@ == id {
        let i = choose|i: int| 0 <= i < ids.len() && (#[trigger] ids[i])@ == id;
        assert(views[i] == id);
    }
}

proof fn lemma_ids_push(ids: Seq<RequestId>, id: RequestId)
    ensures
        ids_view(ids.push(id)) == ids_view(ids).insert(id@),
{
    assert forall|x: RequestId<Seq<char>>|
        ids_view(ids.push(id)).contains(x) == ids_view(ids).insert(id@).contains(x) by {
        lemma_ids_contain(ids, x);
        lemma_ids_contain(ids.push(id), x);
        assert(ids.push(id)[ids.len() as int] == id);
        assert(forall|i: int| 0 <= i < ids.len() ==> ids.push(id)[i] == ids[i]);
    }
    assert(ids_view(ids.push(id)) =~= ids_view(ids).insert(id@));
}

/// Whether `ids` holds `id`.
fn holds_id(ids: &Vec<RequestId>, id: &RequestId) -> (r: bool)
    ensures
        r == ids_view(ids@).contains(id@),
{
    proof {
        lemma_ids_contain(ids@, id@);
    }
    let mut i: usize = 0;
    while i < ids.len()
        invariant
            i <= ids.len(),
            ids_view(ids@).contains(id@) <==> exists|k: int|
                0 <= k < ids@.len() && (#[trigger] ids@[k])@ == id@,
            forall|k: int| 0 <= k < i ==> (#[trigger] ids@[k])@ != id@,
        decreases ids.len() - i,
    {
        if ids[i].same(id) {
            return true;
        }
        i = i + 1;
    }
    false
}

/// The ids other than `id`.
fn without_id(ids: &Vec<RequestId>, id: &RequestId) -> (r: Vec<RequestId>)
    ensures
        ids_view(r@) == ids_view(ids@).remove(id@),
{
    let mut r: Vec<RequestId> = Vec::new();
    let mut i: usize = 0;
    assert(ids_view(r@) =~= ids_view(ids@.take(0)).remove(id@)) by {
        assert(r@ =~= ids@.take(0));
        assert forall|x: RequestId<Seq<char>>| !ids_view(r@).contains(x) by {
            lemma_ids_contain(r@, x);
        }
    }
    while i < ids.len()
        invariant
            i <= ids.len(),
            ids_view(r@) == ids_view(ids@.take(i as int)).remove(id@),
        decreases ids.len() - i,
    {
        assert(ids@.take(i + 1) =~= ids@.take(i as int).push(ids@[i as int]));
        let here = ids[i].duplicate();
        proof {
            lemma_ids_push(ids@.take(i as int), ids@[i as int]);
            lemma_ids_push(r@, here);
        }
        if !ids[i].same(id) {
            r.push(here);
        }
        assert(ids_view(r@) =~= ids_view(ids@.take(i + 1)).remove(id@));
        i = i + 1;
    }
    assert(ids@.take(ids@.len() as int) =~= ids@);
    r
}

proof fn lemma_ids_empty(ids: Seq<RequestId>)
    ensures
        ids.len() == 0 <==> ids_view(ids) == Set::<RequestId<Seq<char>>>::empty(),
{
    if ids.len() == 0 {
        assert forall|x: RequestId<Seq<char>>| !ids_view(ids).contains(x) by {
            lemma_ids_contain(ids, x);
        }
        assert(ids_view(ids) =~= Set::<RequestId<Seq<char>>>::empty());
    } else {
        lemma_ids_contain(ids, ids[0]@);
        assert(ids_view(ids).contains(ids[0]@));
    }
}

/// Guard of a stdio transport: decides when stdin may be read.
pub struct IdaSafeStdioTransport {
    request_ids: Vec<RequestId>,
    peer_response_id: Option<RequestId>,
}

impl View for IdaSafeStdioTransport {
    type V = Gate;

    closed spec fn view(&self) -> Gate {
        Gate { opens: ids_view(self.request_ids@), peer: id_view(self.peer_response_id) }
    }
}

impl IdaSafeStdioTransport {
    /// A guard with no open pending.
    pub fn new() -> (r: IdaSafeStdioTransport)
        ensures
            r@ == Gate::idle(),
    {
        let request_ids: Vec<RequestId> = Vec::new();
        proof {
            lemma_ids_empty(request_ids@);
        }
        IdaSafeStdioTransport { request_ids, peer_response_id: None }
    }

    /// The id of a request to open a database.
    pub fn open_request_id(message: &InboundMessage) -> (r: Option<RequestId>)
        ensures
            id_view(r) == open_request(*message),
    {
        match message {
            InboundMessage::ToolCall { id, tool } => if text_eq(tool.as_str(), "open_idb") {
                Some(id.duplicate())
            } else {
                None
            },
            _ => None,
        }
    }

    /// The id of the request that an outbound message answers.
    pub fn response_id(message: &OutboundMessage) -> (r: Option<RequestId>)
        ensures
            id_view(r) == outbound_response(*message),
    {
        match message {
            OutboundMessage::Response { id } => Some(id.duplicate()),
            OutboundMessage::Error { id: Some(id) } => Some(id.duplicate()),
            _ => None,
        }
    }

    /// The id of a request to the client.
    pub fn outbound_request_id(message: &OutboundMessage) -> (r: Option<RequestId>)
        ensures
            id_view(r) == outbound_request(*message),
    {
        match message {
            OutboundMessage::Request { id } => Some(id.duplicate()),
            _ => None,
        }
    }

    /// The id of the request that an inbound message answers.
    pub fn inbound_response_id(message: &InboundMessage) -> (r: Option<RequestId>)
        ensures
            id_view(r) == inbound_response(*message),
    {
        match message {
            InboundMessage::Response { id } => Some(id.duplicate()),
            InboundMessage::Error { id: Some(id) } => Some(id.duplicate()),
            _ => None,
        }
    }

    /// Whether stdin may be read.
    pub fn read_allowed(&self) -> (r: bool)
        ensures
            r == self@.may_read(),
    {
        proof {
            lemma_ids_empty(self.request_ids@);
        }
        self.request_ids.len() == 0 || self.peer_response_id.is_some()
    }

    /// Takes note of a message that has come in.
    pub fn receive(&mut self, message: &InboundMessage)
        ensures
            final(self)@ == old(self)@.received(*message),
    {
        let answered = match (Self::inbound_response_id(message), &self.peer_response_id) {
            (Some(id), Some(expected)) => expected.same(&id),
            _ => false,
        };
        if answered {
            self.peer_response_id = None;
        }
        if let Some(id) = Self::open_request_id(message) {
            if !holds_id(&self.request_ids, &id) {
                proof {
                    lemma_ids_push(self.request_ids@, id);
                }
                self.request_ids.push(id);
            } else {
                assert(ids_view(self.request_ids@).insert(id@) =~= ids_view(self.request_ids@));
            }
        }
    }

    /// Takes note of a message that was sent, and of whether sending it succeeded. Says
    /// whether those who wait to read must look again.
    pub fn send(&mut self, item: &OutboundMessage, delivered: bool) -> (wake: bool)
        ensures
            final(self)@ == old(self)@.sent(*item, delivered),
            wake == (old(self)@.asks_peer(*item, delivered) || old(self)@.answers_open(*item)),
    {
        proof {
            lemma_ids_empty(self.request_ids@);
        }
        if delivered && self.request_ids.len() > 0 {
            if let Some(id) = Self::outbound_request_id(item) {
                self.peer_response_id = Some(id);
                return true;
            }
        }
        if let Some(id) = Self::response_id(item) {
            if holds_id(&self.request_ids, &id) {
                self.request_ids = without_id(&self.request_ids, &id);
                proof {
                    lemma_ids_empty(self.request_ids@);
                }
                if self.request_ids.len() == 0 {
                    self.peer_response_id = None;
                }
                return true;
            }
        }
        false
    }
}

impl Default for IdaSafeStdioTransport {
    fn default() -> (r: IdaSafeStdioTransport)
        ensures
            r@ == Gate::idle(),
    {
        IdaSafeStdioTransport::new()
    }
}

/// Whatever comes in or goes out, a request to the client is waited for only while an open is
/// pending.
pub proof fn gate_stays_well_formed(
    gate: Gate,
    message: InboundMessage,
    item: OutboundMessage,
    delivered: bool,
)
    requires
        gate.wf(),
    ensures
        Gate::idle().wf(),
        gate.received(message).wf(),
        gate.sent(item, delivered).wf(),
{
    if let Some(id) = open_request(message) {
        assert(gate.opens.insert(id).contains(id));
    }
}

/// Only a request to open a database pauses reads where none is pending.
pub proof fn only_an_open_pauses_reads(gate: Gate, message: InboundMessage)
    requires
        gate.wf(),
        !gate.has_open(),
    ensures
        gate.received(message).may_read() <==> open_request(message) is None,
{
    if let Some(id) = open_request(message) {
        assert(gate.received(message).opens.contains(id));
    }
}

/// Reads that pending opens have paused stay paused until the last of those opens is answered
/// or the client is asked something; no inbound message, and no other answer, lets them go on.
pub proof fn a_pending_open_keeps_reads_paused(
    gate: Gate,
    message: InboundMessage,
    item: OutboundMessage,
    delivered: bool,
)
    requires
        gate.wf(),
        !gate.may_read(),
    ensures
        !gate.received(message).may_read(),
        gate.sent(item, delivered).may_read() <==> gate.asks_peer(item, delivered) || (
        outbound_response(item) matches Some(id) && gate.opens == set![id]),
{
    if let Some(id) = open_request(message) {
        assert(gate.opens.insert(id).contains(id));
    }
    if let Some(id) = outbound_response(item) {
        if gate.opens.contains(id) {
            if gate.opens.remove(id) =~= Set::<RequestId<Seq<char>>>::empty() {
                assert(gate.opens =~= gate.opens.remove(id).insert(id));
                assert(gate.opens =~= set![id]);
            } else if gate.opens == set![id] {
                assert(gate.opens.remove(id) =~= Set::<RequestId<Seq<char>>>::empty());
            }
        } else {
            assert(set![id].contains(id));
        }
    }
}

/// The answer to an open, and an error for it, end that open, even where it could not be
/// delivered; the others stay pending. Where it was the only one, nothing is left behind.
pub proof fn answering_an_open_ends_that_open(
    gate: Gate,
    open: InboundMessage,
    answer: OutboundMessage,
    delivered: bool,
)
    requires
        gate.wf(),
        open_request(open) is Some,
        outbound_response(answer) == open_request(open),
    ensures
        gate.received(open).sent(answer, delivered).opens == gate.opens.remove(
            open_request(open)->0,
        ),
        !gate.has_open() ==> gate.received(open).sent(answer, delivered) == Gate::idle(),
        Gate::idle().may_read(),
{
    let id = open_request(open)->0;
    assert(gate.opens.insert(id).remove(id) =~= gate.opens.remove(id));
    if !gate.has_open() {
        assert(gate.opens.remove(id) =~= Set::<RequestId<Seq<char>>>::empty());
    }
}

/// While an open waits for the client, the client's answer is read, and the pause resumes
/// once it has come.
pub proof fn reads_resume_for_the_clients_answer(
    gate: Gate,
    request: OutboundMessage,
    answer: InboundMessage,
)
    requires
        gate.wf(),
        gate.has_open(),
        outbound_request(request) is Some,
        inbound_response(answer) == outbound_request(request),
    ensures
        gate.sent(request, true).may_read(),
        !gate.sent(request, true).received(answer).may_read(),
{
}

/// A message that went through a transport.
pub enum Traffic {
    In(InboundMessage),
    /// A message to the client, and whether it was delivered.
    Out(OutboundMessage, bool),
}

/// The guard after `traffic`.
pub open spec fn guard_after(traffic: Seq<Traffic>) -> Gate
    decreases traffic.len(),
{
    if traffic.len() == 0 {
        Gate::idle()
    } else {
        let before = guard_after(traffic.drop_last());
        match traffic.last() {
            Traffic::In(message) => before.received(message),
            Traffic::Out(item, delivered) => before.sent(item, delivered),
        }
    }
}

/// The opens that came in and were not answered since.
pub open spec fn unanswered_opens(traffic: Seq<Traffic>) -> Set<RequestId<Seq<char>>>
    decreases traffic.len(),
{
    if traffic.len() == 0 {
        Set::empty()
    } else {
        let before = unanswered_opens(traffic.drop_last());
        match traffic.last() {
            Traffic::In(message) => match open_request(message) {
                Some(id) => before.insert(id),
                None => before,
            },
            Traffic::Out(item, _) => match outbound_response(item) {
                Some(id) => before.remove(id),
                None => before,
            },
        }
    }
}

/// Whether a request with that id was delivered to the client and not answered since.
pub open spec fn awaits_client(traffic: Seq<Traffic>, id: RequestId<Seq<char>>) -> bool
    decreases traffic.len(),
{
    traffic.len() > 0 && match traffic.last() {
        Traffic::In(message) => inbound_response(message) != Some(id) && awaits_client(
            traffic.drop_last(),
            id,
        ),
        Traffic::Out(item, delivered) => (delivered && outbound_request(item) == Some(id))
            || awaits_client(traffic.drop_last(), id),
    }
}

/// Whatever went through the transport, the guard knows every open that is not answered, and
/// lets stdin be read meanwhile only for the answer to a request to the client.
pub proof fn the_guard_knows_every_unanswered_open(traffic: Seq<Traffic>)
    ensures
        guard_after(traffic).wf(),
        guard_after(traffic).opens == unanswered_opens(traffic),
        guard_after(traffic).peer matches Some(id) ==> awaits_client(traffic, id),
    decreases traffic.len(),
{
    if traffic.len() > 0 {
        the_guard_knows_every_unanswered_open(traffic.drop_last());
        let before = guard_after(traffic.drop_last());
        match traffic.last() {
            Traffic::In(message) => {
                if let Some(id) = open_request(message) {
                    assert(before.opens.insert(id).contains(id));
                }
            },
            Traffic::Out(item, delivered) => {
                if let Some(id) = outbound_response(item) {
                    if !before.opens.contains(id) {
                        assert(before.opens.remove(id) =~= before.opens);
                    }
                }
            },
        }
    }
}

/// No read of stdin overlaps an open: whatever went through the transport, while some open is
/// not answered and no request to the client waits for its answer, stdin may not be read.
pub proof fn no_read_overlaps_an_open(traffic: Seq<Traffic>, open: RequestId<Seq<char>>)
    requires
        unanswered_opens(traffic).contains(open),
        forall|id: RequestId<Seq<char>>| !awaits_client(traffic, id),
    ensures
        !guard_after(traffic).may_read(),
{
    the_guard_knows_every_unanswered_open(traffic);
}

/// Whether the message at `at` asks to open a database, under that id: a call of the tool
/// `open_idb`.
pub open spec fn opens_at(traffic: Seq<Traffic>, at: int, id: RequestId<Seq<char>>) -> bool {
    0 <= at < traffic.len() && (traffic[at] matches Traffic::In(
        InboundMessage::ToolCall { id: own, tool },
    ) && own@ == id && tool@ == seq!['o', 'p', 'e', 'n', '_', 'i', 'd', 'b'])
}

/// Whether the message at `at` answers the request of that id to the server: with a response or
/// an error for it, delivered or not.
pub open spec fn answered_at(traffic: Seq<Traffic>, at: int, id: RequestId<Seq<char>>) -> bool {
    0 <= at < traffic.len() && match traffic[at] {
        Traffic::Out(OutboundMessage::Response { id: own }, _) => own@ == id,
        Traffic::Out(OutboundMessage::Error { id: Some(own) }, _) => own@ == id,
        _ => false,
    }
}

/// Whether the message at `at` is a request to the client that was delivered.
pub open spec fn asks_client_at(traffic: Seq<Traffic>, at: int) -> bool {
    0 <= at < traffic.len() && (traffic[at] matches Traffic::Out(
        OutboundMessage::Request { .. },
        delivered,
    ) && delivered)
}

/// An open is unanswered exactly where a call of `open_idb` with its id came in and no response
/// and no error for that id was sent since.
pub proof fn an_open_is_pending_until_it_is_answered(
    traffic: Seq<Traffic>,
    id: RequestId<Seq<char>>,
)
    ensures
        guard_after(traffic).opens.contains(id) <==> exists|at: int|
            #[trigger] opens_at(traffic, at, id) && forall|later: int|
                at < later ==> !#[trigger] answered_at(traffic, later, id),
    decreases traffic.len(),
{
    reveal_strlit("open_idb");
    assert("open_idb"@ =~= seq!['o', 'p', 'e', 'n', '_', 'i', 'd', 'b']);
    the_guard_knows_every_unanswered_open(traffic);
    if traffic.len() > 0 {
        let before = traffic.drop_last();
        let end = traffic.len() - 1;
        an_open_is_pending_until_it_is_answered(before, id);
        the_guard_knows_every_unanswered_open(before);
        assert forall|at: int| at != end implies #[trigger] opens_at(traffic, at, id) == opens_at(
            before,
            at,
            id,
        ) by {}
        assert forall|at: int| at != end implies #[trigger] answered_at(traffic, at, id)
            == answered_at(before, at, id) by {}
        if answered_at(traffic, end, id) {
            assert(!opens_at(traffic, end, id));
            assert(!unanswered_opens(traffic).contains(id));
            assert forall|at: int| #[trigger] opens_at(traffic, at, id) implies at < end by {}
        } else if opens_at(traffic, end, id) {
            assert(unanswered_opens(traffic).contains(id));
            assert forall|later: int| end < later implies !#[trigger] answered_at(
                traffic,
                later,
                id,
            ) by {}
        } else {
            assert(unanswered_opens(traffic).contains(id) == unanswered_opens(before).contains(
                id,
            ));
            if unanswered_opens(before).contains(id) {
                let at = choose|at: int|
                    #[trigger] opens_at(before, at, id) && forall|later: int|
                        at < later ==> !#[trigger] answered_at(before, later, id);
                assert(opens_at(traffic, at, id));
            }
            if exists|at: int|
                #[trigger] opens_at(traffic, at, id) && forall|later: int|
                    at < later ==> !#[trigger] answered_at(traffic, later, id) {
                let at = choose|at: int|
                    #[trigger] opens_at(traffic, at, id) && forall|later: int|
                        at < later ==> !#[trigger] answered_at(traffic, later, id);
                assert(opens_at(before, at, id));
                assert forall|later: int| at < later implies !#[trigger] answered_at(
                    before,
                    later,
                    id,
                ) by {
                    if later != end {
                        assert(!answered_at(traffic, later, id));
                    }
                }
            }
        }
    }
}

proof fn lemma_no_peer(traffic: Seq<Traffic>)
    requires
        forall|at: int| !#[trigger] asks_client_at(traffic, at),
    ensures
        guard_after(traffic).peer is None,
    decreases traffic.len(),
{
    if traffic.len() > 0 {
        let before = traffic.drop_last();
        assert forall|at: int| !#[trigger] asks_client_at(before, at) by {
            if 0 <= at < before.len() {
                assert(!asks_client_at(traffic, at));
            }
        }
        lemma_no_peer(before);
        assert(!asks_client_at(traffic, traffic.len() - 1));
    }
}

/// Where the client is never asked anything, stdin may be read exactly while no call of
/// `open_idb` is without its answer.
pub proof fn stdin_is_read_exactly_between_opens(traffic: Seq<Traffic>)
    requires
        forall|at: int| !#[trigger] asks_client_at(traffic, at),
    ensures
        guard_after(traffic).may_read() <==> !exists|at: int, id: RequestId<Seq<char>>|
            #[trigger] opens_at(traffic, at, id) && forall|later: int|
                at < later ==> !#[trigger] answered_at(traffic, later, id),
{
    lemma_no_peer(traffic);
    let opens = guard_after(traffic).opens;
    let none = Set::<RequestId<Seq<char>>>::empty();
    if opens != none {
        if forall|id: RequestId<Seq<char>>| !#[trigger] opens.contains(id) {
            assert(opens =~= none);
        }
        let id = choose|id: RequestId<Seq<char>>| #[trigger] opens.contains(id);
        an_open_is_pending_until_it_is_answered(traffic, id);
    }
    if exists|at: int, id: RequestId<Seq<char>>|
        #[trigger] opens_at(traffic, at, id) && forall|later: int|
            at < later ==> !#[trigger] answered_at(traffic, later, id) {
        let (at, id) = choose|at: int, id: RequestId<Seq<char>>|
            #[trigger] opens_at(traffic, at, id) && forall|later: int|
                at < later ==> !#[trigger] answered_at(traffic, later, id);
        an_open_is_pending_until_it_is_answered(traffic, id);
        assert(opens.contains(id));
    }
}

/// While an open is pending, a request that reaches the client lets stdin be read, whatever comes
/// in, until the response or an error for that request; one that does not reach it changes
/// nothing. With the last open its wait for the client ends too.
pub proof fn the_clients_answer_is_waited_for(
    gate: Gate,
    id: RequestId,
    message: InboundMessage,
    delivered: bool,
)
    requires
        gate.wf(),
        gate.has_open(),
    ensures
        ({
            let request = OutboundMessage::Request { id };
            let asked = gate.sent(request, delivered);
            let answers = match message {
                InboundMessage::Response { id: own } => own@ == id@,
                InboundMessage::Error { id: Some(own) } => own@ == id@,
                _ => false,
            };
            &&& delivered ==> asked.may_read()
            &&& delivered ==> (asked.received(message).may_read() <==> !answers)
            &&& !delivered ==> asked == gate
            &&& asked.opens == gate.opens
        }),
{
    if let Some(open) = open_request(message) {
        assert(gate.opens.insert(open).contains(open));
    }
}

/// Those who wait to read are told to look again whenever they may have to: what is sent without
/// that changes nothing.
pub proof fn nobody_waits_in_vain(gate: Gate, item: OutboundMessage, delivered: bool)
    requires
        gate.wf(),
    ensures
        !gate.may_read() && gate.sent(item, delivered).may_read() ==> gate.asks_peer(
            item,
            delivered,
        ) || gate.answers_open(item),
        !gate.asks_peer(item, delivered) && !gate.answers_open(item) ==> gate.sent(item, delivered)
            == gate,
{
}

} // verus!
