//! The event fan-out: one serialization per event, delivered to every live
//! subscriber, dropping exactly the subscribers whose write failed. The
//! socket writes themselves happen in the binary; it reports each write's
//! outcome, and this module decides who stays and what each subscriber has
//! received.
use vstd::prelude::*;

verus! {

use crate::ipc::DaemonEvent;
use crate::ipc::event_json;

/// One subscriber connection: the key the binary uses to find its socket,
/// and the lines delivered to it so far, in order.
pub struct Subscriber {
    pub id: u64,
    pub received: Vec<String>,
}

/// The ghost image of a subscriber.
pub struct SubscriberModel {
    pub id: u64,
    pub received: Seq<Seq<char>>,
}

impl View for Subscriber {
    type V = SubscriberModel;

    open spec fn view(&self) -> SubscriberModel {
        SubscriberModel { id: self.id, received: self.received.deep_view() }
    }
}

/// The subscriber list a delivery leaves behind: everyone whose write
/// succeeded, in order, with the line appended to their log; everyone whose
/// write failed is dropped. One subscriber's fate never touches another's
/// delivery.
pub open spec fn spec_deliver(
    subs: Seq<SubscriberModel>,
    ok: Seq<bool>,
    line: Seq<char>,
) -> Seq<SubscriberModel>
    decreases subs.len(),
{
    if subs.len() == 0 {
        Seq::empty()
    } else {
        let rest = spec_deliver(subs.drop_first(), ok.drop_first(), line);
        if ok.len() > 0 && ok[0] {
            seq![
                SubscriberModel { id: subs[0].id, received: subs[0].received.push(line) },
            ] + rest
        } else {
            rest
        }
    }
}

/// The fan-out list of live subscribers.
pub struct EventBus {
    pub subscribers: Vec<Subscriber>,
}

impl View for EventBus {
    type V = Seq<SubscriberModel>;

    open spec fn view(&self) -> Seq<SubscriberModel> {
        Seq::new(self.subscribers@.len(), |i: int| self.subscribers@[i]@)
    }
}

impl EventBus {
    pub fn new() -> (r: EventBus)
        ensures
            r@ =~= Seq::<SubscriberModel>::empty(),
    {
        EventBus { subscribers: Vec::new() }
    }

    /// A newly accepted connection joins with an empty log.
    pub fn subscribe(&mut self, id: u64)
        ensures
            final(self)@ =~= old(self)@.push(SubscriberModel { id, received: Seq::empty() }),
    {
        self.subscribers.push(Subscriber { id, received: Vec::new() });
        proof {
            assert(self.subscribers@.last().received.deep_view() =~= Seq::<Seq<char>>::empty());
        }
    }

    /// How many subscribers are live.
    pub fn len(&self) -> (n: usize)
        ensures
            n == self@.len(),
    {
        self.subscribers.len()
    }

    /// The wire line of `event`, serialized exactly once per delivery.
    pub fn serialize_event(event: &DaemonEvent) -> (line: String)
        ensures
            line@ == event_json(*event) + "\n"@,
    {
        event.to_json_line()
    }

    /// Applies one delivery: `write_ok[i]` says whether the write of `line`
    /// to subscriber `i` succeeded. Succeeding subscribers keep their slot,
    /// in order, with the line appended; failing ones are dropped.
    pub fn deliver(&mut self, line: &String, write_ok: &Vec<bool>)
        requires
            write_ok@.len() == old(self)@.len(),
        ensures
            final(self)@ == spec_deliver(old(self)@, write_ok@, line@),
    {
        let mut kept: Vec<Subscriber> = Vec::new();
        let mut rest: Vec<Subscriber> = Vec::new();
        core::mem::swap(&mut rest, &mut self.subscribers);
        let ghost subs0 = old(self)@;
        let n: usize = rest.len();
        let mut i: usize = 0;
        proof {
            assert(subs0.take(0) =~= Seq::<SubscriberModel>::empty());
            assert(write_ok@.take(0) =~= Seq::<bool>::empty());
        }
        while i < n
            invariant
                i <= n,
                n == subs0.len(),
                rest@.len() == n - i,
                write_ok@.len() == subs0.len(),
                forall|j: int| 0 <= j < rest@.len() ==> rest@[j]@ == subs0[j + i],
                Seq::new(kept@.len(), |k: int| kept@[k]@) =~= spec_deliver(
                    subs0.take(i as int),
                    write_ok@.take(i as int),
                    line@,
                ),
            decreases n - i,
        {
            let sub = rest.remove(0);
            proof {
                assert(sub@ == subs0[i as int]);
            }
            if write_ok[i] {
                let ghost pre_log = sub.received.deep_view();
                let mut log = sub.received;
                log.push(line.clone());
                kept.push(Subscriber { id: sub.id, received: log });
                proof {
                    assert(kept@.last()@.received =~= pre_log.push(line@));
                    assert(kept@.last()@ == SubscriberModel {
                        id: subs0[i as int].id,
                        received: subs0[i as int].received.push(line@),
                    });
                    lemma_deliver_one(subs0[i as int], line@);
                }
            } else {
                proof {
                    lemma_deliver_one_dropped(subs0[i as int], line@);
                }
            }
            proof {
                lemma_deliver_app(
                    subs0.take(i as int),
                    write_ok@.take(i as int),
                    seq![subs0[i as int]],
                    seq![write_ok@[i as int]],
                    line@,
                );
                assert(subs0.take(i as int) + seq![subs0[i as int]] =~= subs0.take(i + 1));
                assert(write_ok@.take(i as int) + seq![write_ok@[i as int]] =~= write_ok@.take(
                    i + 1,
                ));
                assert(Seq::new(kept@.len(), |k: int| kept@[k]@) =~= spec_deliver(
                    subs0.take(i + 1),
                    write_ok@.take(i + 1),
                    line@,
                ));
            }
            i = i + 1;
        }
        proof {
            assert(subs0.take(n as int) =~= subs0);
            assert(write_ok@.take(n as int) =~= write_ok@);
        }
        core::mem::swap(&mut self.subscribers, &mut kept);
        proof {
            assert(self@ =~= spec_deliver(subs0, write_ok@, line@));
        }
    }
}

/// Every subscriber that survives a delivery has received exactly the
/// delivered line on top of its previous log; deliveries are byte-identical
/// across subscribers and arrive in send order.
pub proof fn lemma_deliver_uniform(
    subs: Seq<SubscriberModel>,
    ok: Seq<bool>,
    line: Seq<char>,
    i: int,
)
    requires
        ok.len() == subs.len(),
        0 <= i < spec_deliver(subs, ok, line).len(),
    ensures
        spec_deliver(subs, ok, line)[i].received.len() >= 1,
        spec_deliver(subs, ok, line)[i].received.last() == line,
        exists|j: int|
            0 <= j < subs.len() && #[trigger] subs[j].received.push(line) == spec_deliver(
                subs,
                ok,
                line,
            )[i].received,
    decreases subs.len(),
{
    if subs.len() > 0 {
        let rest = spec_deliver(subs.drop_first(), ok.drop_first(), line);
        if ok[0] {
            if i == 0 {
                assert(subs[0].received.push(line) == spec_deliver(subs, ok, line)[0].received);
            } else {
                lemma_deliver_uniform(subs.drop_first(), ok.drop_first(), line, i - 1);
                let j0 = choose|j: int|
                    0 <= j < subs.drop_first().len() && #[trigger] subs.drop_first()[
                        j
                    ].received.push(line) == rest[i - 1].received;
                assert(subs[j0 + 1].received.push(line) == spec_deliver(subs, ok, line)[
                    i
                ].received);
            }
        } else {
            lemma_deliver_uniform(subs.drop_first(), ok.drop_first(), line, i);
            let j0 = choose|j: int|
                0 <= j < subs.drop_first().len() && #[trigger] subs.drop_first()[j].received.push(
                    line,
                ) == rest[i].received;
            assert(subs[j0 + 1].received.push(line) == spec_deliver(subs, ok, line)[i].received);
        }
    }
}

/// The scenario of two subscribers and two events: both connected before the
/// first event receive its line; the first subscriber disconnecting before
/// the second event does not block the second subscriber, which holds both
/// lines, byte-identical and in send order.
pub proof fn lemma_fanout_two_events(a: u64, b: u64, l1: Seq<char>, l2: Seq<char>)
    ensures
        ({
            let s0 = seq![
                SubscriberModel { id: a, received: Seq::empty() },
                SubscriberModel { id: b, received: Seq::empty() },
            ];
            let s1 = spec_deliver(s0, seq![true, true], l1);
            let s2 = spec_deliver(s1, seq![false, true], l2);
            &&& s1 == seq![
                SubscriberModel { id: a, received: seq![l1] },
                SubscriberModel { id: b, received: seq![l1] },
            ]
            &&& s2 == seq![SubscriberModel { id: b, received: seq![l1, l2] }]
        }),
{
    let s0 = seq![
        SubscriberModel { id: a, received: Seq::empty() },
        SubscriberModel { id: b, received: Seq::empty() },
    ];
    let s1 = spec_deliver(s0, seq![true, true], l1);
    let s2 = spec_deliver(s1, seq![false, true], l2);
    let b1 = seq![SubscriberModel { id: b, received: Seq::empty() }];
    assert(s0.drop_first() =~= b1);
    assert(seq![true, true].drop_first() =~= seq![true]);
    lemma_deliver_one(SubscriberModel { id: b, received: Seq::empty() }, l1);
    assert(Seq::<Seq<char>>::empty().push(l1) =~= seq![l1]);
    assert(s1 =~= seq![
        SubscriberModel { id: a, received: seq![l1] },
        SubscriberModel { id: b, received: seq![l1] },
    ]);
    let b2 = seq![SubscriberModel { id: b, received: seq![l1] }];
    assert(s1.drop_first() =~= b2);
    assert(seq![false, true].drop_first() =~= seq![true]);
    lemma_deliver_one(SubscriberModel { id: b, received: seq![l1] }, l2);
    assert(seq![l1].push(l2) =~= seq![l1, l2]);
    assert(s2 =~= seq![SubscriberModel { id: b, received: seq![l1, l2] }]);
}

/// Delivery distributes over splitting the subscriber list.
proof fn lemma_deliver_app(
    s1: Seq<SubscriberModel>,
    ok1: Seq<bool>,
    s2: Seq<SubscriberModel>,
    ok2: Seq<bool>,
    line: Seq<char>,
)
    requires
        ok1.len() == s1.len(),
    ensures
        spec_deliver(s1 + s2, ok1 + ok2, line) == spec_deliver(s1, ok1, line) + spec_deliver(
            s2,
            ok2,
            line,
        ),
    decreases s1.len(),
{
    if s1.len() == 0 {
        assert(s1 + s2 =~= s2);
        assert(ok1 + ok2 =~= ok2);
        assert(spec_deliver(s1, ok1, line) + spec_deliver(s2, ok2, line) =~= spec_deliver(
            s2,
            ok2,
            line,
        ));
    } else {
        assert((s1 + s2).drop_first() =~= s1.drop_first() + s2);
        assert((ok1 + ok2).drop_first() =~= ok1.drop_first() + ok2);
        lemma_deliver_app(s1.drop_first(), ok1.drop_first(), s2, ok2, line);
        assert(spec_deliver(s1 + s2, ok1 + ok2, line) =~= spec_deliver(s1, ok1, line)
            + spec_deliver(s2, ok2, line));
    }
}

/// Delivery to a single failing subscriber drops it.
proof fn lemma_deliver_one_dropped(s: SubscriberModel, line: Seq<char>)
    ensures
        spec_deliver(seq![s], seq![false], line) =~= Seq::<SubscriberModel>::empty(),
{
    assert(seq![s].drop_first() =~= Seq::<SubscriberModel>::empty());
    assert(seq![false].drop_first() =~= Seq::<bool>::empty());
    assert(spec_deliver(Seq::<SubscriberModel>::empty(), Seq::<bool>::empty(), line)
        == Seq::<SubscriberModel>::empty());
}

/// Delivery to a single succeeding subscriber appends the line.
proof fn lemma_deliver_one(s: SubscriberModel, line: Seq<char>)
    ensures
        spec_deliver(seq![s], seq![true], line) =~= seq![
            SubscriberModel { id: s.id, received: s.received.push(line) },
        ],
{
    assert(seq![s].drop_first() =~= Seq::<SubscriberModel>::empty());
    assert(seq![true].drop_first() =~= Seq::<bool>::empty());
    assert(spec_deliver(Seq::<SubscriberModel>::empty(), Seq::<bool>::empty(), line)
        == Seq::<SubscriberModel>::empty());
    assert(spec_deliver(seq![s], seq![true], line) =~= seq![
        SubscriberModel { id: s.id, received: s.received.push(line) },
    ] + Seq::<SubscriberModel>::empty());
}

} // verus!
