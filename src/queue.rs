//! The broker core: the registry of queues, the default exchange that routes
//! to each queue by its name, consumers, and the queue lifecycle rules.

use vstd::prelude::*;
use crate::error::{ChannelException, ConException, ProtocolError};

verus! {

/// Identifies a channel across every connection of the broker.
pub type ChannelId = u64;

pub struct Message {
    pub exchange: String,
    pub routing_key: String,
    pub body: Vec<u8>,
}

pub struct Consumer {
    pub tag: String,
    pub channel: ChannelId,
    pub no_ack: bool,
    pub exclusive: bool,
}

pub struct Queue {
    pub id: u64,
    pub name: String,
    pub messages: Vec<Message>,
    pub durable: bool,
    /// The channel that owns an exclusive queue.
    pub exclusive: Option<ChannelId>,
    pub auto_delete: bool,
    pub consumers: Vec<Consumer>,
    /// Where the next delivery goes among the consumers.
    pub next_consumer: usize,
}

/// The arguments of `Queue.Declare` that the broker acts on.
pub struct QueueDeclare {
    pub queue: String,
    pub passive: bool,
    pub durable: bool,
    pub exclusive: bool,
    pub auto_delete: bool,
    pub no_wait: bool,
}

/// The answer to `Queue.Declare`.
pub struct DeclareOk {
    pub queue: String,
    pub message_count: u32,
    pub consumer_count: u32,
}

/// What became of a published message.
#[derive(Debug, Clone, Copy, PartialEq, Eq, Structural)]
pub enum PublishOutcome {
    /// Appended to the queue that the routing key names.
    Routed,
    /// No queue matched and the message was mandatory: answer `Basic.Return` (312).
    Returned,
    /// No queue matched; the message is dropped.
    Dropped,
}

/// All queues of the broker. The default exchange binds each queue under its
/// own name, so routing on it is a lookup by name, and deleting a queue
/// removes its binding with it.
pub struct Broker {
    pub queues: Vec<Queue>,
    pub next_id: u64,
}

pub open spec fn channel_error(e: ChannelException) -> ProtocolError {
    ProtocolError::ChannelException(e)
}

/// Whether some queue in `qs` has the name `name`.
pub open spec fn has_queue(qs: Seq<Queue>, name: Seq<char>) -> bool {
    exists|i: int| 0 <= i < qs.len() && #[trigger] qs[i].name@ == name
}

/// Queue names are unique.
pub open spec fn names_unique(qs: Seq<Queue>) -> bool {
    forall|i: int, j: int|
        0 <= i < qs.len() && 0 <= j < qs.len() && #[trigger] qs[i].name@ == #[trigger] qs[j].name@
            ==> i == j
}

/// Whether `c` may use queue `q`: it is not exclusive to another channel.
pub open spec fn may_use(q: Queue, c: ChannelId) -> bool {
    q.exclusive is None || q.exclusive == Some(c)
}

/// Whether a declaration asks for the flags that `q` has.
pub open spec fn same_flags(q: Queue, durable: bool, exclusive: bool, auto_delete: bool) -> bool {
    q.durable == durable && (q.exclusive is Some) == exclusive && q.auto_delete == auto_delete
}

/// The queue of the default exchange that a routing key reaches.
pub open spec fn routes_to(qs: Seq<Queue>, exchange: Seq<char>, routing_key: Seq<char>, i: int) -> bool {
    exchange.len() == 0 && 0 <= i < qs.len() && qs[i].name@ == routing_key
}

/// The decimal digits of `n`.
pub open spec fn decimal(n: nat) -> Seq<char>
    decreases n,
{
    if n < 10 {
        seq![(('0' as u8) + n as u8) as char]
    } else {
        decimal(n / 10).push((('0' as u8) + (n % 10) as u8) as char)
    }
}

/// Relies on `format!` with a `&str` and a `u64` argument: the text of
/// `prefix`, then the decimal digits of `n`.
#[verifier::external_body]
fn numbered(prefix: &str, n: u64) -> (r: String)
    ensures
        r@ == prefix@ + decimal(n as nat),
{
    format!("{prefix}{n}")
}

proof fn lemma_decimal_nonempty(n: nat)
    ensures
        decimal(n).len() >= 1,
    decreases n,
{
    if n >= 10 {
        lemma_decimal_nonempty(n / 10);
    }
}

/// The name made up for the `n`-th queue declared without one.
pub open spec fn generated_name(n: nat) -> Seq<char> {
    "amq.gen-"@ + decimal(n)
}

/// The tag made up for the `n`-th consumer registered without one.
pub open spec fn generated_tag(n: nat) -> Seq<char> {
    "amq.ctag-"@ + decimal(n)
}

/// A count as the `long` of a reply; larger counts are reported as the largest `long`.
pub open spec fn count_u32(n: nat) -> u32 {
    if n > u32::MAX { u32::MAX } else { n as u32 }
}

fn count_of(n: usize) -> (r: u32)
    ensures
        r == count_u32(n as nat),
{
    if n as u64 > u32::MAX as u64 { u32::MAX } else { n as u32 }
}

/// The reply that declaring (or checking) queue `q` gets.
pub open spec fn declare_ok_for(r: DeclareOk, q: Queue) -> bool {
    &&& r.queue@ == q.name@
    &&& r.message_count == count_u32(q.messages@.len())
    &&& r.consumer_count == count_u32(q.consumers@.len())
}

/// The queue that `Queue.Declare` creates.
pub open spec fn fresh_queue(q: Queue, name: Seq<char>, d: QueueDeclare, c: ChannelId) -> bool {
    &&& q.name@ == name
    &&& q.messages@.len() == 0
    &&& q.consumers@.len() == 0
    &&& q.durable == d.durable
    &&& q.exclusive == (if d.exclusive { Some(c) } else { None::<ChannelId> })
    &&& q.auto_delete == d.auto_delete
}

/// Some consumer of `channel` has the tag `tag`.
pub open spec fn tag_in_use(qs: Seq<Queue>, channel: ChannelId, tag: Seq<char>) -> bool {
    exists|i: int, c: int|
        0 <= i < qs.len() && 0 <= c < qs[i].consumers@.len() && #[trigger] qs[i].consumers@[c].channel
            == channel && qs[i].consumers@[c].tag@ == tag
}

/// `new` is `old` with one consumer added at the end of queue `i`'s consumers.
pub open spec fn consumer_added(
    old: Seq<Queue>,
    new: Seq<Queue>,
    i: int,
    tag: Seq<char>,
    channel: ChannelId,
    no_ack: bool,
    exclusive: bool,
) -> bool {
    &&& new.len() == old.len()
    &&& forall|j: int| 0 <= j < old.len() && j != i ==> new[j] == old[j]
    &&& new[i].name == old[i].name
    &&& new[i].messages == old[i].messages
    &&& new[i].auto_delete == old[i].auto_delete
    &&& new[i].exclusive == old[i].exclusive
    &&& new[i].consumers@.drop_last() == old[i].consumers@
    &&& new[i].consumers@.last().tag@ == tag
    &&& new[i].consumers@.last().channel == channel
    &&& new[i].consumers@.last().exclusive == exclusive
    &&& new[i].consumers@.last().no_ack == no_ack
}

proof fn lemma_update_keeps_names_unique(qs: Seq<Queue>, i: int, q: Queue)
    requires
        names_unique(qs),
        0 <= i < qs.len(),
        q.name@ == qs[i].name@,
    ensures
        names_unique(qs.update(i, q)),
{
    let u = qs.update(i, q);
    assert forall|a: int, b: int|
        0 <= a < u.len() && 0 <= b < u.len() && #[trigger] u[a].name@ == #[trigger] u[b].name@
            implies a == b by {
        assert(u[a].name@ == qs[a].name@ && u[b].name@ == qs[b].name@);
    }
}

proof fn lemma_remove_keeps_names_unique(qs: Seq<Queue>, i: int)
    requires
        names_unique(qs),
        0 <= i < qs.len(),
    ensures
        names_unique(qs.remove(i)),
        forall|j: int| 0 <= j < qs.remove(i).len() ==> qs.remove(i)[j].name@ != qs[i].name@,
{
    let u = qs.remove(i);
    assert forall|a: int, b: int|
        0 <= a < u.len() && 0 <= b < u.len() && #[trigger] u[a].name@ == #[trigger] u[b].name@
            implies a == b by {
        let a2 = if a < i { a } else { a + 1 };
        let b2 = if b < i { b } else { b + 1 };
        assert(u[a] == qs[a2] && u[b] == qs[b2]);
    }
    assert forall|j: int| 0 <= j < u.len() implies u[j].name@ != qs[i].name@ by {
        let j2 = if j < i { j } else { j + 1 };
        assert(u[j] == qs[j2]);
    }
}

/// `q2` is `q1` with the consumers of `channel` gone: every other consumer
/// stays, and none of `channel` is left.
pub open spec fn without_channel(q1: Queue, q2: Queue, channel: ChannelId) -> bool {
    &&& q2.name == q1.name
    &&& q2.messages == q1.messages
    &&& q2.durable == q1.durable
    &&& q2.exclusive == q1.exclusive
    &&& q2.auto_delete == q1.auto_delete
    &&& forall|j: int| 0 <= j < q2.consumers@.len() ==> (#[trigger] q2.consumers@[j]).channel != channel
    &&& keeps_others(q1.consumers@, q2.consumers@, channel)
}

/// Every consumer in `cs1` of a channel other than `channel` is in `cs2`.
#[verifier::opaque]
pub open spec fn keeps_others(cs1: Seq<Consumer>, cs2: Seq<Consumer>, channel: ChannelId) -> bool {
    forall|j: int|
        0 <= j < cs1.len() && (#[trigger] cs1[j]).channel != channel ==> exists|d: int|
            0 <= d < cs2.len() && cs2[d] == cs1[j]
}

/// Removes the consumers of `channel` from `q`.
fn remove_channel_consumers(q: &mut Queue, channel: ChannelId)
    ensures
        without_channel(*old(q), *final(q), channel),
{
    let mut cs: Vec<Consumer> = Vec::new();
    std::mem::swap(&mut cs, &mut q.consumers);
    let ghost orig = cs@;
    let ghost mut t: int = 0;
    while cs.len() > 0
        invariant
            orig == old(q).consumers@,
            0 <= t <= orig.len(),
            cs@ == orig.skip(t),
            q.name == old(q).name,
            q.messages == old(q).messages,
            q.durable == old(q).durable,
            q.exclusive == old(q).exclusive,
            q.auto_delete == old(q).auto_delete,
            forall|j: int| 0 <= j < q.consumers@.len() ==> (#[trigger] q.consumers@[j]).channel
                != channel,
            forall|j: int|
                0 <= j < t && (#[trigger] orig[j]).channel != channel ==> exists|d: int|
                    0 <= d < q.consumers@.len() && q.consumers@[d] == orig[j],
        decreases cs@.len(),
    {
        let ghost before = q.consumers@;
        let c = cs.remove(0);
        proof {
            assert(c == orig[t]);
            assert(cs@ =~= orig.skip(t + 1));
        }
        if c.channel != channel {
            q.consumers.push(c);
            proof {
                reveal(keeps_others);
                assert forall|j: int|
                    0 <= j < t + 1 && (#[trigger] orig[j]).channel != channel implies exists|d: int|
                    0 <= d < q.consumers@.len() && q.consumers@[d] == orig[j] by {
                    if j < t {
                        let d = choose|d: int| 0 <= d < before.len() && before[d] == orig[j];
                        assert(q.consumers@[d] == before[d]);
                    } else {
                        assert(q.consumers@[before.len() as int] == orig[j]);
                    }
                }
            }
        }
        proof {
            t = t + 1;
        }
    }
    proof {
        reveal(keeps_others);
    }
}

/// The consumer that the `t`-th delivery after a cursor at `start` goes to,
/// among `n` consumers taken in turn.
pub open spec fn turn(start: nat, n: nat, t: nat) -> nat {
    ((start + t) as int % (n as int)) as nat
}

/// Deliveries chain: the cursor that `deliver` leaves after the `t`-th
/// delivery from `start` is where the `t + 1`-th goes, so a run of `k`
/// deliveries goes to `turn(start, n, 0)`, `turn(start, n, 1)`, ... in order.
pub proof fn lemma_turn_step(start: nat, n: nat, t: nat)
    requires
        n > 0,
    ensures
        turn(turn(start, n, t), n, 1) == turn(start, n, t + 1),
        turn(turn(start, n, t), n, 0) == turn(start, n, t),
{
    let x = (start + t) as int;
    vstd::arithmetic::div_mod::lemma_add_mod_noop(x, 1, n as int);
    vstd::arithmetic::div_mod::lemma_mod_twice(x, n as int);
    vstd::arithmetic::div_mod::lemma_add_mod_noop(x % (n as int), 1, n as int);
    vstd::arithmetic::div_mod::lemma_mod_twice(1, n as int);
    vstd::arithmetic::div_mod::lemma_mod_twice(x, n as int);
}

/// How many of the first `k` deliveries from a cursor at `start` go to
/// consumer `who` of two.
pub open spec fn picks_of_two(start: nat, k: nat, who: nat) -> nat
    decreases k,
{
    if k == 0 {
        0
    } else {
        picks_of_two(start, (k - 1) as nat, who) + if turn(start, 2, (k - 1) as nat) == who {
            1nat
        } else {
            0nat
        }
    }
}

/// With two consumers taken in turn, `k` deliveries in a row give each of
/// them `k / 2` or `k / 2` rounded up, and the two shares add up to `k`.
pub proof fn lemma_round_robin_two(start: nat, k: nat)
    ensures
        picks_of_two(start, k, 0) + picks_of_two(start, k, 1) == k,
        picks_of_two(start, k, 0) == k / 2 || picks_of_two(start, k, 0) == (k + 1) / 2,
        picks_of_two(start, k, 1) == k / 2 || picks_of_two(start, k, 1) == (k + 1) / 2,
        k % 2 == 0 ==> picks_of_two(start, k, 0) == k / 2,
        k % 2 == 0 ==> picks_of_two(start, k, 1) == k / 2,
    decreases k,
{
    if k >= 2 {
        lemma_round_robin_two(start, (k - 2) as nat);
        let a = turn(start, 2, (k - 2) as nat);
        let b = turn(start, 2, (k - 1) as nat);
        let x = (start + k - 2) as int;
        vstd::arithmetic::div_mod::lemma_add_mod_noop(x, 1, 2);
        assert(a == x % 2);
        assert(b == (x + 1) % 2);
        assert(a != b);
        assert(a == 0 || a == 1);
        assert(picks_of_two(start, (k - 1) as nat, 0) == picks_of_two(start, (k - 2) as nat, 0) + if a == 0 { 1nat } else { 0nat });
        assert(picks_of_two(start, (k - 1) as nat, 1) == picks_of_two(start, (k - 2) as nat, 1) + if a == 1 { 1nat } else { 0nat });
        assert(picks_of_two(start, k, 0) == picks_of_two(start, (k - 1) as nat, 0) + if b == 0 { 1nat } else { 0nat });
        assert(picks_of_two(start, k, 1) == picks_of_two(start, (k - 1) as nat, 1) + if b == 1 { 1nat } else { 0nat });
    } else if k == 1 {
        assert(picks_of_two(start, 0, 0) == 0);
        assert(picks_of_two(start, 0, 1) == 0);
    }
}

/// Every declared queue is bound to the default exchange under its own name:
/// a message published there with that name as routing key reaches it.
pub proof fn lemma_declared_queue_is_routed(qs: Seq<Queue>, name: Seq<char>)
    requires
        has_queue(qs, name),
    ensures
        exists|i: int| #[trigger] routes_to(qs, Seq::empty(), name, i) && qs[i].name@ == name,
{
    let i = choose|i: int| 0 <= i < qs.len() && #[trigger] qs[i].name@ == name;
    assert(routes_to(qs, Seq::empty(), name, i));
}

impl Broker {
    pub open spec fn wf(&self) -> bool {
        names_unique(self.queues@)
    }

    pub fn new() -> (r: Broker)
        ensures
            r.wf(),
            r.queues@.len() == 0,
    {
        Broker { queues: Vec::new(), next_id: 0 }
    }

    /// The index of the queue named `name`.
    pub fn position(&self, name: &String) -> (r: Option<usize>)
        requires
            self.wf(),
        ensures
            r matches Some(i) ==> i < self.queues@.len() && self.queues@[i as int].name@ == name@,
            r is None <==> !has_queue(self.queues@, name@),
    {
        let mut i: usize = 0;
        while i < self.queues.len()
            invariant
                i <= self.queues@.len(),
                forall|j: int| 0 <= j < i ==> self.queues@[j].name@ != name@,
            decreases self.queues@.len() - i,
        {
            if self.queues[i].name == *name {
                return Some(i);
            }
            i = i + 1;
        }
        None
    }

    /// A name for a queue declared without one: `amq.gen-` and a number that
    /// no queue name uses yet.
    fn fresh_name(&mut self) -> (r: Result<String, ProtocolError>)
        requires
            old(self).wf(),
        ensures
            final(self).queues@ == old(self).queues@,
            r matches Ok(name) ==> !has_queue(final(self).queues@, name@) && name@.len() != 0,
            r matches Err(e) ==> e == ProtocolError::ConException(ConException::ResourceError)
                && forall|m: u64|
                old(self).next_id <= m ==> has_queue(
                    old(self).queues@,
                    #[trigger] generated_name(m as nat),
                ),
    {
        let mut n = self.next_id;
        loop
            invariant
                self.wf(),
                self.queues@ == old(self).queues@,
                self.next_id == old(self).next_id,
                old(self).next_id <= n,
                forall|m: u64|
                    old(self).next_id <= m < n ==> has_queue(
                        self.queues@,
                        #[trigger] generated_name(m as nat),
                    ),
            decreases u64::MAX - n,
        {
            let name = numbered("amq.gen-", n);
            proof {
                lemma_decimal_nonempty(n as nat);
            }
            if self.position(&name).is_none() {
                self.next_id = if n < u64::MAX { n + 1 } else { n };
                return Ok(name);
            }
            if n == u64::MAX {
                return Err(ProtocolError::ConException(ConException::ResourceError));
            }
            n = n + 1;
        }
    }

    /// `Queue.Declare` on channel `channel`. An existing queue answers with its
    /// counts where the channel may use it and, unless `passive`, its flags
    /// match; otherwise a new queue is created, bound to the default exchange
    /// under its name. An empty name gets a fresh one.
    pub fn declare(&mut self, channel: ChannelId, queue_declare: QueueDeclare) -> (r: Result<
        DeclareOk,
        ProtocolError,
    >)
        requires
            old(self).wf(),
        ensures
            final(self).wf(),
            forall|i: int|
                0 <= i < old(self).queues@.len() && #[trigger] old(self).queues@[i].name@
                    == queue_declare.queue@ ==> {
                    let q = old(self).queues@[i];
                    &&& final(self).queues@ == old(self).queues@
                    &&& !may_use(q, channel) ==> r == Err::<DeclareOk, ProtocolError>(
                        channel_error(ChannelException::ResourceLocked),
                    )
                    &&& may_use(q, channel) && !queue_declare.passive && !same_flags(
                        q,
                        queue_declare.durable,
                        queue_declare.exclusive,
                        queue_declare.auto_delete,
                    ) ==> r == Err::<DeclareOk, ProtocolError>(
                        channel_error(ChannelException::PreconditionFailed),
                    )
                    &&& may_use(q, channel) && (queue_declare.passive || same_flags(
                        q,
                        queue_declare.durable,
                        queue_declare.exclusive,
                        queue_declare.auto_delete,
                    )) ==> (r matches Ok(ok) && declare_ok_for(ok, q))
                },
            !has_queue(old(self).queues@, queue_declare.queue@) && queue_declare.passive ==> r
                == Err::<DeclareOk, ProtocolError>(channel_error(ChannelException::NotFound))
                && final(self).queues@ == old(self).queues@,
            !has_queue(old(self).queues@, queue_declare.queue@) && !queue_declare.passive
                && queue_declare.queue@.len() != 0 ==> (r matches Ok(ok) && {
                &&& final(self).queues@.len() == old(self).queues@.len() + 1
                &&& final(self).queues@.drop_last() == old(self).queues@
                &&& fresh_queue(final(self).queues@.last(), queue_declare.queue@, queue_declare, channel)
                &&& declare_ok_for(ok, final(self).queues@.last())
            }),
            !has_queue(old(self).queues@, queue_declare.queue@) && !queue_declare.passive
                && queue_declare.queue@.len() == 0 ==> match r {
                Ok(ok) => {
                    &&& final(self).queues@.len() == old(self).queues@.len() + 1
                    &&& final(self).queues@.drop_last() == old(self).queues@
                    &&& !has_queue(old(self).queues@, ok.queue@)
                    &&& ok.queue@.len() != 0
                    &&& fresh_queue(final(self).queues@.last(), ok.queue@, queue_declare, channel)
                    &&& declare_ok_for(ok, final(self).queues@.last())
                },
                Err(e) => e == ProtocolError::ConException(ConException::ResourceError)
                    && final(self).queues@ == old(self).queues@ && forall|m: u64|
                    old(self).next_id <= m ==> has_queue(
                        old(self).queues@,
                        #[trigger] generated_name(m as nat),
                    ),
            },
    {
        let QueueDeclare { queue: queue_name, passive, durable, exclusive, auto_delete, no_wait: _ } =
            queue_declare;
        match self.position(&queue_name) {
            Some(i) => {
                let q = &self.queues[i];
                let usable = match q.exclusive {
                    None => true,
                    Some(owner) => owner == channel,
                };
                if !usable {
                    return Err(ProtocolError::ChannelException(ChannelException::ResourceLocked));
                }
                if !passive && !(q.durable == durable && q.exclusive.is_some() == exclusive
                    && q.auto_delete == auto_delete) {
                    return Err(
                        ProtocolError::ChannelException(ChannelException::PreconditionFailed),
                    );
                }
                Ok(
                    DeclareOk {
                        queue: queue_name,
                        message_count: count_of(q.messages.len()),
                        consumer_count: count_of(q.consumers.len()),
                    },
                )
            },
            None => {
                if passive {
                    return Err(ProtocolError::ChannelException(ChannelException::NotFound));
                }
                let name = if queue_name.as_str().is_empty() {
                    match self.fresh_name() {
                        Ok(name) => name,
                        Err(e) => return Err(e),
                    }
                } else {
                    queue_name
                };
                let id = self.next_id;
                self.next_id = if id < u64::MAX { id + 1 } else { id };
                let reply_name = name.clone();
                let queue = Queue {
                    id,
                    name,
                    messages: Vec::new(),
                    durable,
                    exclusive: if exclusive { Some(channel) } else { None },
                    auto_delete,
                    consumers: Vec::new(),
                    next_consumer: 0,
                };
                let ghost before = self.queues@;
                self.queues.push(queue);
                assert(self.queues@.drop_last() =~= before);
                assert forall|a: int, b: int|
                    0 <= a < self.queues@.len() && 0 <= b < self.queues@.len()
                        && #[trigger] self.queues@[a].name@ == #[trigger] self.queues@[b].name@
                        implies a == b by {
                    if a < before.len() && b < before.len() {
                        assert(before[a] == self.queues@[a] && before[b] == self.queues@[b]);
                    } else if a < before.len() {
                        assert(before[a] == self.queues@[a]);
                    } else if b < before.len() {
                        assert(before[b] == self.queues@[b]);
                    }
                }
                Ok(DeclareOk { queue: reply_name, message_count: 0, consumer_count: 0 })
            },
        }
    }

    /// Puts `q` in place of the queue at `i`, which has the same name.
    fn replace_queue(&mut self, i: usize, q: Queue)
        requires
            old(self).wf(),
            i < old(self).queues@.len(),
            q.name@ == old(self).queues@[i as int].name@,
        ensures
            final(self).wf(),
            final(self).queues@ == old(self).queues@.update(i as int, q),
            final(self).next_id == old(self).next_id,
    {
        let ghost before = self.queues@;
        self.queues.remove(i);
        self.queues.insert(i, q);
        assert(self.queues@ =~= before.update(i as int, q));
        proof {
            lemma_update_keeps_names_unique(before, i as int, q);
        }
    }

    /// `Queue.Bind`: only the default exchange exists, and it binds every
    /// queue by name already, so any other binding is `NotImplemented`.
    pub fn bind(&mut self, queue: &String, exchange: &String, routing_key: &String) -> (r: Result<
        (),
        ProtocolError,
    >)
        requires
            old(self).wf(),
        ensures
            final(self).wf(),
            final(self).queues@ == old(self).queues@,
            !has_queue(old(self).queues@, queue@) ==> r == Err::<(), ProtocolError>(
                channel_error(ChannelException::NotFound),
            ),
            has_queue(old(self).queues@, queue@) && exchange@.len() == 0 && routing_key@ == queue@
                ==> r == Ok::<(), ProtocolError>(()),
            has_queue(old(self).queues@, queue@) && !(exchange@.len() == 0 && routing_key@
                == queue@) ==> r == Err::<(), ProtocolError>(
                ProtocolError::ConException(ConException::NotImplemented),
            ),
    {
        if self.position(queue).is_none() {
            return Err(ProtocolError::ChannelException(ChannelException::NotFound));
        }
        if exchange.as_str().is_empty() && *routing_key == *queue {
            Ok(())
        } else {
            Err(ProtocolError::ConException(ConException::NotImplemented))
        }
    }

    /// `Basic.Publish` with its content. On the default exchange (the empty
    /// name) the message is appended to the queue that the routing key names;
    /// where there is none, a mandatory message is returned and another one dropped.
    pub fn publish(
        &mut self,
        exchange: &String,
        routing_key: &String,
        mandatory: bool,
        immediate: bool,
        message: Message,
    ) -> (r: Result<PublishOutcome, ProtocolError>)
        requires
            old(self).wf(),
        ensures
            final(self).wf(),
            immediate ==> r == Err::<PublishOutcome, ProtocolError>(
                ProtocolError::ConException(ConException::NotImplemented),
            ) && final(self).queues@ == old(self).queues@,
            !immediate && exchange@.len() != 0 ==> r == Err::<PublishOutcome, ProtocolError>(
                channel_error(ChannelException::NotFound),
            ) && final(self).queues@ == old(self).queues@,
            forall|i: int|
                !immediate && #[trigger] routes_to(old(self).queues@, exchange@, routing_key@, i)
                    ==> {
                    let q = old(self).queues@[i];
                    &&& r == Ok::<PublishOutcome, ProtocolError>(PublishOutcome::Routed)
                    &&& final(self).queues@.len() == old(self).queues@.len()
                    &&& forall|j: int|
                        0 <= j < old(self).queues@.len() && j != i ==> final(self).queues@[j]
                            == old(self).queues@[j]
                    &&& final(self).queues@[i].messages@ == q.messages@.push(message)
                    &&& final(self).queues@[i].name == q.name
                    &&& final(self).queues@[i].consumers == q.consumers
                    &&& final(self).queues@[i].exclusive == q.exclusive
                    &&& final(self).queues@[i].auto_delete == q.auto_delete
                    &&& final(self).queues@[i].durable == q.durable
                },
            !immediate && exchange@.len() == 0 && !has_queue(old(self).queues@, routing_key@) ==> r
                == Ok::<PublishOutcome, ProtocolError>(
                if mandatory {
                    PublishOutcome::Returned
                } else {
                    PublishOutcome::Dropped
                },
            ) && final(self).queues@ == old(self).queues@,
    {
        if immediate {
            return Err(ProtocolError::ConException(ConException::NotImplemented));
        }
        if !exchange.as_str().is_empty() {
            return Err(ProtocolError::ChannelException(ChannelException::NotFound));
        }
        match self.position(routing_key) {
            Some(i) => {
                let mut q = self.queues.remove(i);
                let ghost removed = self.queues@;
                proof {
                    assert(self.queues@ =~= old(self).queues@.remove(i as int));
                }
                q.messages.push(message);
                self.queues.insert(i, q);
                proof {
                    assert(self.queues@ =~= old(self).queues@.update(i as int, q));
                    lemma_update_keeps_names_unique(old(self).queues@, i as int, q);
                }
                Ok(PublishOutcome::Routed)
            },
            None => {
                if mandatory {
                    Ok(PublishOutcome::Returned)
                } else {
                    Ok(PublishOutcome::Dropped)
                }
            },
        }
    }

    /// `Basic.Get`: takes the oldest message of the queue, if it has one.
    pub fn get(&mut self, channel: ChannelId, queue: &String) -> (r: Result<
        Option<Message>,
        ProtocolError,
    >)
        requires
            old(self).wf(),
        ensures
            final(self).wf(),
            !has_queue(old(self).queues@, queue@) ==> (r matches Err(e) && e == channel_error(
                ChannelException::NotFound,
            ) && final(self).queues@ == old(self).queues@),
            forall|i: int|
                0 <= i < old(self).queues@.len() && #[trigger] old(self).queues@[i].name@
                    == queue@ ==> {
                    let q = old(self).queues@[i];
                    &&& !may_use(q, channel) ==> (r matches Err(e) && e == channel_error(
                        ChannelException::ResourceLocked,
                    ) && final(self).queues@ == old(self).queues@)
                    &&& may_use(q, channel) && q.messages@.len() == 0 ==> (r matches Ok(None)
                        && final(self).queues@ == old(self).queues@)
                    &&& may_use(q, channel) && q.messages@.len() > 0 ==> (r matches Ok(Some(m))
                        && m == q.messages@[0] && final(self).queues@.len()
                        == old(self).queues@.len() && final(self).queues@[i].messages@
                        == q.messages@.skip(1) && final(self).queues@[i].name == q.name
                        && forall|j: int|
                        0 <= j < old(self).queues@.len() && j != i ==> final(self).queues@[j]
                            == old(self).queues@[j])
                },
    {
        let i = match self.position(queue) {
            Some(i) => i,
            None => return Err(ProtocolError::ChannelException(ChannelException::NotFound)),
        };
        let usable = match self.queues[i].exclusive {
            None => true,
            Some(owner) => owner == channel,
        };
        if !usable {
            return Err(ProtocolError::ChannelException(ChannelException::ResourceLocked));
        }
        if self.queues[i].messages.len() == 0 {
            return Ok(None);
        }
        let mut q = self.queues.remove(i);
        let m = q.messages.remove(0);
        self.queues.insert(i, q);
        proof {
            assert(self.queues@ =~= old(self).queues@.update(i as int, q));
            assert(q.messages@ =~= old(self).queues@[i as int].messages@.skip(1));
            lemma_update_keeps_names_unique(old(self).queues@, i as int, q);
        }
        Ok(Some(m))
    }

    /// Whether a consumer of `channel` has the tag `tag`.
    pub fn tag_in_use(&self, channel: ChannelId, tag: &String) -> (r: bool)
        ensures
            r == tag_in_use(self.queues@, channel, tag@),
    {
        let mut i: usize = 0;
        while i < self.queues.len()
            invariant
                i <= self.queues@.len(),
                forall|a: int, c: int|
                    0 <= a < i && 0 <= c < self.queues@[a].consumers@.len() ==> !(
                    #[trigger] self.queues@[a].consumers@[c].channel == channel
                        && self.queues@[a].consumers@[c].tag@ == tag@),
            decreases self.queues@.len() - i,
        {
            let mut c: usize = 0;
            while c < self.queues[i].consumers.len()
                invariant
                    i < self.queues@.len(),
                    c <= self.queues@[i as int].consumers@.len(),
                    forall|a: int, d: int|
                        0 <= a < i && 0 <= d < self.queues@[a].consumers@.len() ==> !(
                        #[trigger] self.queues@[a].consumers@[d].channel == channel
                            && self.queues@[a].consumers@[d].tag@ == tag@),
                    forall|d: int|
                        0 <= d < c ==> !(#[trigger] self.queues@[i as int].consumers@[d].channel
                            == channel && self.queues@[i as int].consumers@[d].tag@ == tag@),
                decreases self.queues@[i as int].consumers@.len() - c,
            {
                if self.queues[i].consumers[c].channel == channel
                    && self.queues[i].consumers[c].tag == *tag {
                    return true;
                }
                c = c + 1;
            }
            i = i + 1;
        }
        false
    }

    /// A consumer tag that no consumer of `channel` has yet: `amq.ctag-` and a number.
    fn fresh_tag(&mut self, channel: ChannelId) -> (r: Result<String, ProtocolError>)
        requires
            old(self).wf(),
        ensures
            final(self).wf(),
            final(self).queues@ == old(self).queues@,
            r matches Ok(tag) ==> !tag_in_use(final(self).queues@, channel, tag@) && tag@.len() != 0,
            r matches Err(e) ==> e == ProtocolError::ConException(ConException::ResourceError)
                && forall|m: u64|
                old(self).next_id <= m ==> tag_in_use(
                    old(self).queues@,
                    channel,
                    #[trigger] generated_tag(m as nat),
                ),
    {
        let mut n = self.next_id;
        loop
            invariant
                self.wf(),
                self.queues@ == old(self).queues@,
                self.next_id == old(self).next_id,
                old(self).next_id <= n,
                forall|m: u64|
                    old(self).next_id <= m < n ==> tag_in_use(
                        self.queues@,
                        channel,
                        #[trigger] generated_tag(m as nat),
                    ),
            decreases u64::MAX - n,
        {
            let tag = numbered("amq.ctag-", n);
            proof {
                lemma_decimal_nonempty(n as nat);
            }
            if !self.tag_in_use(channel, &tag) {
                self.next_id = if n < u64::MAX { n + 1 } else { n };
                return Ok(tag);
            }
            if n == u64::MAX {
                return Err(ProtocolError::ConException(ConException::ResourceError));
            }
            n = n + 1;
        }
    }

    /// `Basic.Consume`: registers a consumer of `queue` on `channel` and
    /// answers with its tag, which the broker makes up where the given one is
    /// empty. Tags are unique within a channel. An exclusive consumer must be
    /// the only one of its queue.
    pub fn consume(
        &mut self,
        channel: ChannelId,
        queue: &String,
        consumer_tag: String,
        no_ack: bool,
        exclusive: bool,
    ) -> (r: Result<String, ProtocolError>)
        requires
            old(self).wf(),
        ensures
            final(self).wf(),
            !has_queue(old(self).queues@, queue@) ==> (r matches Err(e) && e == channel_error(
                ChannelException::NotFound,
            ) && final(self).queues@ == old(self).queues@),
            forall|i: int|
                0 <= i < old(self).queues@.len() && #[trigger] old(self).queues@[i].name@
                    == queue@ ==> {
                    let q = old(self).queues@[i];
                    let refused = (exclusive && q.consumers@.len() > 0) || exists|c: int|
                        0 <= c < q.consumers@.len() && (#[trigger] q.consumers@[c]).exclusive;
                    &&& !may_use(q, channel) ==> (r matches Err(e) && e == channel_error(
                        ChannelException::ResourceLocked,
                    ) && final(self).queues@ == old(self).queues@)
                    &&& may_use(q, channel) && refused ==> (r matches Err(e) && e
                        == channel_error(ChannelException::AccessRefused) && final(self).queues@
                        == old(self).queues@)
                    &&& may_use(q, channel) && !refused && consumer_tag@.len() != 0
                        && tag_in_use(old(self).queues@, channel, consumer_tag@) ==> (r matches Err(e)
                        && e == ProtocolError::ConException(ConException::NotAllowed)
                        && final(self).queues@ == old(self).queues@)
                    &&& may_use(q, channel) && !refused && consumer_tag@.len() != 0
                        && !tag_in_use(old(self).queues@, channel, consumer_tag@) ==> (r matches Ok(tag)
                        && tag@ == consumer_tag@ && consumer_added(
                        old(self).queues@,
                        final(self).queues@,
                        i,
                        tag@,
                        channel,
                        no_ack,
                        exclusive,
                    ))
                    &&& may_use(q, channel) && !refused && consumer_tag@.len() == 0 ==> match r {
                        Ok(tag) => !tag_in_use(old(self).queues@, channel, tag@) && tag@.len() != 0
                            && consumer_added(
                            old(self).queues@,
                            final(self).queues@,
                            i,
                            tag@,
                            channel,
                            no_ack,
                            exclusive,
                        ),
                        Err(e) => e == ProtocolError::ConException(ConException::ResourceError)
                            && final(self).queues@ == old(self).queues@ && forall|m: u64|
                            old(self).next_id <= m ==> tag_in_use(
                                old(self).queues@,
                                channel,
                                #[trigger] generated_tag(m as nat),
                            ),
                    }
                },
    {
        let i = match self.position(queue) {
            Some(i) => i,
            None => return Err(ProtocolError::ChannelException(ChannelException::NotFound)),
        };
        let usable = match self.queues[i].exclusive {
            None => true,
            Some(owner) => owner == channel,
        };
        if !usable {
            return Err(ProtocolError::ChannelException(ChannelException::ResourceLocked));
        }
        if exclusive && self.queues[i].consumers.len() > 0 {
            return Err(ProtocolError::ChannelException(ChannelException::AccessRefused));
        }
        let mut c: usize = 0;
        while c < self.queues[i].consumers.len()
            invariant
                i < self.queues@.len(),
                self.queues@ == old(self).queues@,
                self.wf(),
                self.queues@[i as int].name@ == queue@,
                may_use(self.queues@[i as int], channel),
                !(exclusive && self.queues@[i as int].consumers@.len() > 0),
                c <= self.queues@[i as int].consumers@.len(),
                forall|d: int| 0 <= d < c ==> !(#[trigger] self.queues@[i as int].consumers@[d]).exclusive,
            decreases self.queues@[i as int].consumers@.len() - c,
        {
            if self.queues[i].consumers[c].exclusive {
                assert(self.queues@[i as int].consumers@[c as int].exclusive);
                return Err(ProtocolError::ChannelException(ChannelException::AccessRefused));
            }
            c = c + 1;
        }
        let tag = if consumer_tag.as_str().is_empty() {
            match self.fresh_tag(channel) {
                Ok(t) => t,
                Err(e) => return Err(e),
            }
        } else {
            if self.tag_in_use(channel, &consumer_tag) {
                return Err(ProtocolError::ConException(ConException::NotAllowed));
            }
            consumer_tag
        };
        let reply = tag.clone();
        let ghost mid = self.queues@;
        let mut q = self.queues.remove(i);
        q.consumers.push(Consumer { tag, channel, no_ack, exclusive });
        self.queues.insert(i, q);
        proof {
            assert(mid == old(self).queues@);
            assert(self.queues@ =~= old(self).queues@.update(i as int, q));
            lemma_update_keeps_names_unique(old(self).queues@, i as int, q);
            assert(q.consumers@.drop_last() =~= old(self).queues@[i as int].consumers@);
            assert(consumer_added(old(self).queues@, self.queues@, i as int, reply@, channel, no_ack, exclusive));
        }
        Ok(reply)
    }

    /// `Basic.Cancel`: removes the consumer `consumer_tag` of `channel`. An
    /// auto-delete queue that this leaves without consumers is deleted, and
    /// with it its binding. Answers whether there was such a consumer.
    pub fn cancel(&mut self, channel: ChannelId, consumer_tag: &String) -> (r: bool)
        requires
            old(self).wf(),
        ensures
            final(self).wf(),
            r == tag_in_use(old(self).queues@, channel, consumer_tag@),
            !r ==> final(self).queues@ == old(self).queues@,
            r ==> exists|i: int, c: int|
                #![trigger old(self).queues@[i].consumers@[c]]
                0 <= i < old(self).queues@.len() && 0 <= c
                    < old(self).queues@[i].consumers@.len() && {
                    let q = old(self).queues@[i];
                    &&& q.consumers@[c].tag@ == consumer_tag@
                    &&& q.consumers@[c].channel == channel
                    &&& q.auto_delete && q.consumers@.len() == 1 ==> final(self).queues@
                        == old(self).queues@.remove(i) && !has_queue(final(self).queues@, q.name@)
                    &&& !(q.auto_delete && q.consumers@.len() == 1) ==> {
                        &&& final(self).queues@.len() == old(self).queues@.len()
                        &&& final(self).queues@[i].name == q.name
                        &&& final(self).queues@[i].consumers@ == q.consumers@.remove(c)
                        &&& forall|j: int|
                            0 <= j < old(self).queues@.len() && j != i ==> final(self).queues@[j]
                                == old(self).queues@[j]
                    }
                },
    {
        let mut i: usize = 0;
        while i < self.queues.len()
            invariant
                self.queues@ == old(self).queues@,
                self.wf(),
                i <= self.queues@.len(),
                forall|a: int, d: int|
                    0 <= a < i && 0 <= d < self.queues@[a].consumers@.len() ==> !(
                    #[trigger] self.queues@[a].consumers@[d].channel == channel
                        && self.queues@[a].consumers@[d].tag@ == consumer_tag@),
            decreases self.queues@.len() - i,
        {
            let mut c: usize = 0;
            while c < self.queues[i].consumers.len()
                invariant
                    self.queues@ == old(self).queues@,
                    self.wf(),
                    i < self.queues@.len(),
                    c <= self.queues@[i as int].consumers@.len(),
                    forall|a: int, d: int|
                        0 <= a < i && 0 <= d < self.queues@[a].consumers@.len() ==> !(
                        #[trigger] self.queues@[a].consumers@[d].channel == channel
                            && self.queues@[a].consumers@[d].tag@ == consumer_tag@),
                    forall|d: int|
                        0 <= d < c ==> !(#[trigger] self.queues@[i as int].consumers@[d].channel
                            == channel && self.queues@[i as int].consumers@[d].tag@ == consumer_tag@),
                decreases self.queues@[i as int].consumers@.len() - c,
            {
                if self.queues[i].consumers[c].channel == channel
                    && self.queues[i].consumers[c].tag == *consumer_tag {
                    let ghost q0 = self.queues@[i as int];
                    let mut q = self.queues.remove(i);
                    q.consumers.remove(c);
                    if q.auto_delete && q.consumers.len() == 0 {
                        proof {
                            lemma_remove_keeps_names_unique(old(self).queues@, i as int);
                            assert(self.queues@ == old(self).queues@.remove(i as int));
                            if has_queue(self.queues@, q0.name@) {
                                let j = choose|j: int| 0 <= j < self.queues@.len() && #[trigger] self.queues@[j].name@ == q0.name@;
                                assert(self.queues@[j].name@ != q0.name@);
                            }
                        }
                    } else {
                        self.queues.insert(i, q);
                        proof {
                            assert(self.queues@ =~= old(self).queues@.update(i as int, q));
                            lemma_update_keeps_names_unique(old(self).queues@, i as int, q);
                        }
                    }
                    assert(old(self).queues@[i as int] == q0);
                    assert(q0.consumers@[c as int].tag@ == consumer_tag@);
                    assert(old(self).queues@[i as int].consumers@[c as int].channel == channel);
                    return true;
                }
                c = c + 1;
            }
            i = i + 1;
        }
        false
    }

    /// Hands the oldest message of `queue` to its consumers in turn: the one
    /// at the cursor gets it, and the cursor moves on to the next. Nothing
    /// happens where the queue is missing, empty or without consumers.
    pub fn deliver(&mut self, queue: &String) -> (r: Option<(String, ChannelId, Message)>)
        requires
            old(self).wf(),
        ensures
            final(self).wf(),
            r is None ==> final(self).queues@ == old(self).queues@,
            !has_queue(old(self).queues@, queue@) ==> r is None,
            forall|i: int|
                0 <= i < old(self).queues@.len() && #[trigger] old(self).queues@[i].name@
                    == queue@ ==> {
                    let q = old(self).queues@[i];
                    let n = q.consumers@.len();
                    &&& (q.messages@.len() == 0 || n == 0) ==> r is None
                    &&& q.messages@.len() > 0 && n > 0 ==> (r matches Some((tag, ch, m)) && {
                        let k = turn(q.next_consumer as nat, n, 0);
                        &&& tag@ == q.consumers@[k as int].tag@
                        &&& ch == q.consumers@[k as int].channel
                        &&& m == q.messages@[0]
                        &&& final(self).queues@.len() == old(self).queues@.len()
                        &&& final(self).queues@[i].messages@ == q.messages@.skip(1)
                        &&& final(self).queues@[i].consumers == q.consumers
                        &&& final(self).queues@[i].name == q.name
                        &&& final(self).queues@[i].next_consumer as nat == turn(
                            q.next_consumer as nat,
                            n,
                            1,
                        )
                        &&& forall|j: int|
                            0 <= j < old(self).queues@.len() && j != i ==> final(self).queues@[j]
                                == old(self).queues@[j]
                    })
                },
    {
        let i = match self.position(queue) {
            Some(i) => i,
            None => return None,
        };
        let n = self.queues[i].consumers.len();
        if self.queues[i].messages.len() == 0 || n == 0 {
            return None;
        }
        let mut q = self.queues.remove(i);
        let k = q.next_consumer % n;
        let m = q.messages.remove(0);
        let tag = q.consumers[k].tag.clone();
        let ch = q.consumers[k].channel;
        q.next_consumer = if k + 1 < n { k + 1 } else { 0 };
        self.queues.insert(i, q);
        proof {
            assert(self.queues@ =~= old(self).queues@.update(i as int, q));
            assert(q.messages@ =~= old(self).queues@[i as int].messages@.skip(1));
            lemma_update_keeps_names_unique(old(self).queues@, i as int, q);
            let s = old(self).queues@[i as int].next_consumer as int;
            assert((s + 1) % (n as int) == if k + 1 < n { k + 1 } else { 0 }) by {
                assert(k == s % (n as int));
                vstd::arithmetic::div_mod::lemma_add_mod_noop(s, 1, n as int);
                if n > 1 {
                    vstd::arithmetic::div_mod::lemma_small_mod(1, n as nat);
                } else {
                    assert(1int % 1int == 0);
                }
                if k + 1 < n {
                    vstd::arithmetic::div_mod::lemma_small_mod((k + 1) as nat, n as nat);
                } else {
                    vstd::arithmetic::div_mod::lemma_mod_self_0(n as int);
                }
            }
        }
        Some((tag, ch, m))
    }

    /// Puts the unacknowledged messages of a closing channel back at the head
    /// of the queues they came from, in the order they were delivered. Those
    /// whose queue is gone are dropped.
    pub fn requeue(&mut self, deliveries: Deliveries)
        requires
            old(self).wf(),
        ensures
            final(self).wf(),
            final(self).queues@.len() == old(self).queues@.len(),
            forall|j: int|
                0 <= j < old(self).queues@.len() ==> {
                    let q = #[trigger] old(self).queues@[j];
                    &&& final(self).queues@[j].name == q.name
                    &&& final(self).queues@[j].consumers == q.consumers
                    &&& final(self).queues@[j].exclusive == q.exclusive
                    &&& final(self).queues@[j].auto_delete == q.auto_delete
                    &&& final(self).queues@[j].messages@ == returned_to(
                        deliveries.unacked@,
                        q.name@,
                    ) + q.messages@
                },
    {
        let ghost all = deliveries.unacked@;
        let mut pending = deliveries.unacked;
        assert(all.subrange(all.len() as int, all.len() as int) =~= Seq::<(u64, String, Message)>::empty());
        while pending.len() > 0
            invariant
                self.wf(),
                self.queues@.len() == old(self).queues@.len(),
                pending@.len() <= all.len(),
                pending@ == all.take(pending@.len() as int),
                forall|j: int|
                    0 <= j < old(self).queues@.len() ==> {
                        let q = #[trigger] old(self).queues@[j];
                        &&& self.queues@[j].name == q.name
                        &&& self.queues@[j].consumers == q.consumers
                        &&& self.queues@[j].exclusive == q.exclusive
                        &&& self.queues@[j].auto_delete == q.auto_delete
                        &&& self.queues@[j].messages@ == returned_to(
                            all.subrange(pending@.len() as int, all.len() as int),
                            q.name@,
                        ) + q.messages@
                    },
            decreases pending@.len(),
        {
            let ghost k = pending@.len() - 1;
            let entry = pending.pop().unwrap();
            let (_, queue_name, message) = entry;
            let ghost tail = all.subrange(k, all.len() as int);
            assert(tail[0] == all[k]);
            assert(tail.skip(1) =~= all.subrange(k + 1, all.len() as int));
            assert(pending@ =~= all.take(k));
            let ghost before = self.queues@;
            match self.position(&queue_name) {
                Some(i) => {
                    let mut q = self.queues.remove(i);
                    let ghost old_msgs = q.messages@;
                    q.messages.insert(0, message);
                    self.queues.insert(i, q);
                    proof {
                        assert(self.queues@ =~= before.update(i as int, q));
                        lemma_update_keeps_names_unique(before, i as int, q);
                        assert forall|j: int| 0 <= j < old(self).queues@.len() implies {
                            let q0 = #[trigger] old(self).queues@[j];
                            self.queues@[j].messages@ == returned_to(tail, q0.name@) + q0.messages@
                        } by {
                            let q0 = old(self).queues@[j];
                            if j == i {
                                assert(returned_to(tail, q0.name@) =~= seq![all[k].2]
                                    + returned_to(tail.skip(1), q0.name@));
                                assert(q.messages@ =~= seq![message] + old_msgs);
                                assert(seq![all[k].2] + returned_to(tail.skip(1), q0.name@)
                                    + q0.messages@ =~= seq![message] + (returned_to(
                                    tail.skip(1),
                                    q0.name@,
                                ) + q0.messages@));
                            } else {
                                assert(before[j].name@ != before[i as int].name@);
                                assert(returned_to(tail, q0.name@) =~= Seq::<Message>::empty()
                                    + returned_to(tail.skip(1), q0.name@));
                            }
                        }
                    }
                },
                None => {
                    proof {
                        assert forall|j: int| 0 <= j < old(self).queues@.len() implies {
                            let q0 = #[trigger] old(self).queues@[j];
                            self.queues@[j].messages@ == returned_to(tail, q0.name@) + q0.messages@
                        } by {
                            let q0 = old(self).queues@[j];
                            assert(self.queues@[j].name@ != queue_name@);
                            assert(returned_to(tail, q0.name@) =~= Seq::<Message>::empty()
                                + returned_to(tail.skip(1), q0.name@));
                        }
                    }
                },
            }
        }
        assert(all.subrange(0, all.len() as int) =~= all);
    }

    /// Removes every consumer of `channel`, then deletes the queues that the
    /// channel owned exclusively and the auto-delete queues that lost their
    /// last consumer.
    pub fn close_channel(&mut self, channel: ChannelId)
        requires
            old(self).wf(),
        ensures
            final(self).wf(),
            forall|j: int|
                0 <= j < final(self).queues@.len() ==> (#[trigger] final(self).queues@[j]).exclusive
                    != Some(channel),
            forall|j: int, c: int|
                0 <= j < final(self).queues@.len() && 0 <= c
                    < final(self).queues@[j].consumers@.len() ==> (
                #[trigger] final(self).queues@[j].consumers@[c]).channel != channel,
            forall|m: int|
                0 <= m < old(self).queues@.len() && (#[trigger] old(self).queues@[m]).exclusive
                    == Some(channel) ==> !has_queue(final(self).queues@, old(self).queues@[m].name@),
            forall|m: int|
                0 <= m < old(self).queues@.len() && (#[trigger] old(self).queues@[m]).exclusive
                    != Some(channel) && !old(self).queues@[m].auto_delete ==> has_queue(
                    final(self).queues@,
                    old(self).queues@[m].name@,
                ),
            forall|j: int, m: int|
                0 <= j < final(self).queues@.len() && 0 <= m < old(self).queues@.len()
                    && #[trigger] final(self).queues@[j].name@ == #[trigger] old(self).queues@[m].name@
                    ==> without_channel(old(self).queues@[m], final(self).queues@[j], channel),
    {
        let ghost old_qs = self.queues@;
        let ghost mut k: int = 0;
        let ghost mut src: Seq<int> = Seq::empty();
        let mut i: usize = 0;
        while i < self.queues.len()
            invariant
                names_unique(old_qs),
                names_unique(self.queues@),
                0 <= i <= k <= old_qs.len(),
                self.queues@.len() == i + (old_qs.len() - k),
                forall|j: int| i <= j < self.queues@.len() ==> self.queues@[j] == old_qs[j - i + k],
                forall|j: int| 0 <= j < i ==> (#[trigger] self.queues@[j]).exclusive != Some(channel),
                forall|j: int, c: int|
                    0 <= j < i && 0 <= c < self.queues@[j].consumers@.len()
                        ==> (#[trigger] self.queues@[j].consumers@[c]).channel != channel,
                forall|j: int|
                    0 <= j < i ==> exists|m: int|
                        0 <= m < k && #[trigger] old_qs[m].name@ == (#[trigger] self.queues@[j]).name@,
                src.len() == i,
                forall|j: int|
                    #![trigger src[j]]
                    0 <= j < i ==> 0 <= src[j] < k && without_channel(
                        old_qs[src[j]],
                        self.queues@[j],
                        channel,
                    ),
                forall|m: int|
                    0 <= m < k && (#[trigger] old_qs[m]).exclusive == Some(channel) ==> forall|j: int|
                        0 <= j < i ==> (#[trigger] self.queues@[j]).name@ != old_qs[m].name@,
                forall|m: int|
                    0 <= m < k && (#[trigger] old_qs[m]).exclusive != Some(channel)
                        && !old_qs[m].auto_delete ==> exists|j: int|
                        0 <= j < i && (#[trigger] self.queues@[j]).name@ == old_qs[m].name@,
            decreases self.queues@.len() - i,
        {
            let ghost before = self.queues@;
            let mut q = self.queues.remove(i);
            proof {
                lemma_remove_keeps_names_unique(before, i as int);
                assert(q == old_qs[k]);
            }
            let had_consumers = q.consumers.len() > 0;
            remove_channel_consumers(&mut q, channel);
            let owned = match q.exclusive {
                Some(owner) => owner == channel,
                None => false,
            };
            let emptied = q.auto_delete && had_consumers && q.consumers.len() == 0;
            if owned || emptied {
                proof {
                    assert forall|j: int| 0 <= j < i implies (#[trigger] self.queues@[j]).name@
                        != old_qs[k].name@ by {
                        assert(self.queues@[j] == before[j]);
                    }
                    assert forall|m: int|
                        0 <= m < k + 1 && (#[trigger] old_qs[m]).exclusive != Some(channel)
                            && !old_qs[m].auto_delete implies exists|j: int|
                        0 <= j < i && (#[trigger] self.queues@[j]).name@ == old_qs[m].name@ by {
                        if m < k {
                            let j = choose|j: int| 0 <= j < i && (#[trigger] before[j]).name@ == old_qs[m].name@;
                            assert(self.queues@[j] == before[j]);
                        }
                    }
                    assert forall|j: int| 0 <= j < i implies exists|m: int|
                        0 <= m < k + 1 && #[trigger] old_qs[m].name@ == (#[trigger] self.queues@[j]).name@ by {
                        assert(self.queues@[j] == before[j]);
                    }
                    assert forall|j: int|
                        #![trigger src[j]]
                        0 <= j < i implies 0 <= src[j] < k + 1 && without_channel(
                        old_qs[src[j]],
                        self.queues@[j],
                        channel,
                    ) by {
                        assert(self.queues@[j] == before[j]);
                    }
                    k = k + 1;
                }
            } else {
                self.queues.insert(i, q);
                proof {
                    assert(self.queues@ =~= before.update(i as int, q));
                    lemma_update_keeps_names_unique(before, i as int, q);
                    assert forall|m: int|
                        0 <= m < k + 1 && (#[trigger] old_qs[m]).exclusive == Some(channel) implies forall|j: int|
                        0 <= j < i + 1 ==> (#[trigger] self.queues@[j]).name@ != old_qs[m].name@ by {
                        assert forall|j: int| 0 <= j < i + 1 implies (#[trigger] self.queues@[j]).name@
                            != old_qs[m].name@ by {
                            if j == i {
                                assert(old_qs[k].name@ == self.queues@[j].name@);
                            } else {
                                assert(self.queues@[j] == before[j]);
                            }
                        }
                    }
                    assert forall|m: int|
                        0 <= m < k + 1 && (#[trigger] old_qs[m]).exclusive != Some(channel)
                            && !old_qs[m].auto_delete implies exists|j: int|
                        0 <= j < i + 1 && (#[trigger] self.queues@[j]).name@ == old_qs[m].name@ by {
                        if m < k {
                            let j = choose|j: int| 0 <= j < i && (#[trigger] before[j]).name@ == old_qs[m].name@;
                            assert(self.queues@[j] == before[j]);
                        } else {
                            assert(self.queues@[i as int].name@ == old_qs[m].name@);
                        }
                    }
                    assert forall|j: int| 0 <= j < i + 1 implies exists|m: int|
                        0 <= m < k + 1 && #[trigger] old_qs[m].name@ == (#[trigger] self.queues@[j]).name@ by {
                        if j == i {
                            assert(old_qs[k].name@ == self.queues@[j].name@);
                        } else {
                            assert(self.queues@[j] == before[j]);
                        }
                    }
                    let ghost src0 = src;
                    src = src.push(k);
                    assert forall|j: int|
                        #![trigger src[j]]
                        0 <= j < i + 1 implies 0 <= src[j] < k + 1 && without_channel(
                        old_qs[src[j]],
                        self.queues@[j],
                        channel,
                    ) by {
                        if j == i {
                            assert(self.queues@[j] == q);
                        } else {
                            assert(src[j] == src0[j]);
                            assert(self.queues@[j] == before[j]);
                        }
                    }
                    k = k + 1;
                }
                i = i + 1;
            }
        }
        proof {
            assert(old_qs == old(self).queues@);
            assert forall|j: int, m: int|
                0 <= j < self.queues@.len() && 0 <= m < old(self).queues@.len()
                    && #[trigger] self.queues@[j].name@ == #[trigger] old(self).queues@[m].name@
                    implies without_channel(old(self).queues@[m], self.queues@[j], channel) by {
                let m2 = src[j];
                assert(without_channel(old_qs[m2], self.queues@[j], channel));
                assert(old_qs[m2].name@ == old_qs[m].name@);
            }
            assert forall|m: int|
                0 <= m < old_qs.len() && (#[trigger] old_qs[m]).exclusive == Some(channel)
                    implies !has_queue(self.queues@, old_qs[m].name@) by {
                if has_queue(self.queues@, old_qs[m].name@) {
                    let j = choose|j: int| 0 <= j < self.queues@.len() && #[trigger] self.queues@[j].name@ == old_qs[m].name@;
                    assert(self.queues@[j].name@ != old_qs[m].name@);
                }
            }
        }
    }
}

/// The messages among `pending` that came from the queue named `name`, in order.
pub open spec fn returned_to(pending: Seq<(u64, String, Message)>, name: Seq<char>) -> Seq<Message>
    decreases pending.len(),
{
    if pending.len() == 0 {
        Seq::empty()
    } else {
        (if pending[0].1@ == name {
            seq![pending[0].2]
        } else {
            Seq::empty()
        }) + returned_to(pending.skip(1), name)
    }
}

/// The deliveries of one channel that await an acknowledgement, by delivery
/// tag. Tags grow by one with each delivery on the channel.
pub struct Deliveries {
    pub last_tag: u64,
    /// Pending deliveries in tag order: tag, source queue, message.
    pub unacked: Vec<(u64, String, Message)>,
}

impl Deliveries {
    /// Tags are strictly increasing and none is above the last one handed out.
    pub open spec fn wf(&self) -> bool {
        &&& forall|a: int, b: int|
            0 <= a < b < self.unacked@.len() ==> #[trigger] self.unacked@[a].0
                < #[trigger] self.unacked@[b].0
        &&& forall|a: int| 0 <= a < self.unacked@.len() ==> #[trigger] self.unacked@[a].0 <= self.last_tag
    }

    pub fn new() -> (r: Deliveries)
        ensures
            r.wf(),
            r.last_tag == 0,
            r.unacked@.len() == 0,
    {
        Deliveries { last_tag: 0, unacked: Vec::new() }
    }

    /// Hands out the next delivery tag for `message` from `queue`, and keeps
    /// the message until it is acknowledged unless `no_ack`. `None` once the
    /// tags are used up.
    pub fn record(&mut self, queue: String, message: Message, no_ack: bool) -> (r: Option<u64>)
        requires
            old(self).wf(),
        ensures
            final(self).wf(),
            old(self).last_tag == u64::MAX ==> r is None && *final(self) == *old(self),
            old(self).last_tag < u64::MAX ==> {
                &&& r == Some((old(self).last_tag + 1) as u64)
                &&& final(self).last_tag == old(self).last_tag + 1
                &&& no_ack ==> final(self).unacked@ == old(self).unacked@
                &&& !no_ack ==> final(self).unacked@ == old(self).unacked@.push(
                    ((old(self).last_tag + 1) as u64, queue, message),
                )
            },
    {
        if self.last_tag == u64::MAX {
            return None;
        }
        let tag = self.last_tag + 1;
        self.last_tag = tag;
        if !no_ack {
            self.unacked.push((tag, queue, message));
        }
        Some(tag)
    }

    /// `Basic.Ack`: settles delivery `tag`, and with `multiple` every earlier
    /// one too. A tag that is not pending is `PreconditionFailed`.
    pub fn ack(&mut self, tag: u64, multiple: bool) -> (r: Result<(), ChannelException>)
        requires
            old(self).wf(),
        ensures
            final(self).wf(),
            final(self).last_tag == old(self).last_tag,
            (forall|a: int| 0 <= a < old(self).unacked@.len() ==> #[trigger] old(self).unacked@[a].0 != tag)
                ==> r == Err::<(), ChannelException>(ChannelException::PreconditionFailed)
                && final(self).unacked@ == old(self).unacked@,
            forall|a: int|
                0 <= a < old(self).unacked@.len() && #[trigger] old(self).unacked@[a].0 == tag ==> {
                    &&& r is Ok
                    &&& !multiple ==> final(self).unacked@ == old(self).unacked@.remove(a)
                    &&& multiple ==> final(self).unacked@ == old(self).unacked@.skip(a + 1)
                },
    {
        let mut i: usize = 0;
        while i < self.unacked.len()
            invariant
                self.wf(),
                *self == *old(self),
                i <= self.unacked@.len(),
                forall|a: int| 0 <= a < i ==> #[trigger] self.unacked@[a].0 != tag,
            decreases self.unacked@.len() - i,
        {
            if self.unacked[i].0 == tag {
                let ghost before = self.unacked@;
                let len = self.unacked.len();
                if multiple {
                    let mut n: usize = 0;
                    while n <= i
                        invariant
                            n <= i + 1,
                            i < before.len(),
                            before.len() == len,
                            self.last_tag == old(self).last_tag,
                            self.unacked@ == before.skip(n as int),
                        decreases i + 1 - n,
                    {
                        self.unacked.remove(0);
                        n = n + 1;
                        assert(self.unacked@ =~= before.skip(n as int));
                    }
                } else {
                    self.unacked.remove(i);
                }
                proof {
                    assert forall|a: int|
                        0 <= a < before.len() && #[trigger] before[a].0 == tag implies a == i by {
                        if a < i {
                        } else if a > i {
                            assert(before[i as int].0 < before[a].0);
                        }
                    }
                    if multiple {
                        assert forall|a: int, b: int|
                            0 <= a < b < self.unacked@.len() implies #[trigger] self.unacked@[a].0
                                < #[trigger] self.unacked@[b].0 by {
                            assert(self.unacked@[a] == before[a + i + 1]);
                            assert(self.unacked@[b] == before[b + i + 1]);
                        }
                        assert forall|a: int| 0 <= a < self.unacked@.len() implies #[trigger] self.unacked@[a].0
                            <= self.last_tag by {
                            assert(self.unacked@[a] == before[a + i + 1]);
                        }
                    } else {
                        assert forall|a: int, b: int|
                            0 <= a < b < self.unacked@.len() implies #[trigger] self.unacked@[a].0
                                < #[trigger] self.unacked@[b].0 by {
                            let a2 = if a < i { a } else { a + 1 };
                            let b2 = if b < i { b } else { b + 1 };
                            assert(self.unacked@[a] == before[a2]);
                            assert(self.unacked@[b] == before[b2]);
                        }
                        assert forall|a: int| 0 <= a < self.unacked@.len() implies #[trigger] self.unacked@[a].0
                            <= self.last_tag by {
                            let a2 = if a < i { a } else { a + 1 };
                            assert(self.unacked@[a] == before[a2]);
                        }
                    }
                }
                return Ok(());
            }
            i = i + 1;
        }
        Err(ChannelException::PreconditionFailed)
    }
}

} // verus!
