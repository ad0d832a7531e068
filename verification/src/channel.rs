//! The level channel: a bounded, non-blocking first-in first-out hand-off of
//! levels from the capture side to the display side.
//!
//! A level is a whole number of hundredths of a decibel relative to full
//! scale. The storage is a `ringbuf` heap ring buffer. While a channel is
//! whole, one owner pushes and pops and the contents are known exactly. Once
//! split, each half is used from its own thread. A half works from what it
//! knows, the slots it saw free or the levels it saw waiting, and there a
//! call's outcome is certain; only when that has run out does it look at the
//! other side, and the outcome depends on what the other side has done.

use ringbuf::traits::Consumer;
use ringbuf::traits::Producer;
use ringbuf::traits::Split;
use ringbuf::HeapCons;
use ringbuf::HeapProd;
use ringbuf::HeapRb;
use vstd::prelude::*;

verus! {

/// Largest number of slots a channel can be made with: the slots of a channel
/// of this size still fit in an allocation on a 32-bit machine.
pub const MAX_SLOTS: usize = 0x1FFF_FFFF;

/// A `ringbuf` heap ring buffer of levels, owned whole.
#[verifier::external_body]
pub struct LevelRing {
    ring: HeapRb<i32>,
}

/// The levels that a ring buffer holds, oldest first.
pub uninterp spec fn ring_items(ring: LevelRing) -> Seq<i32>;

/// The number of slots that a ring buffer was made with.
pub uninterp spec fn ring_slots(ring: LevelRing) -> nat;

/// `ringbuf::HeapRb::new`: a ring buffer with `slots` slots and nothing in
/// it. The call panics on zero slots and where the slots exceed the largest
/// allocation, which the precondition leaves out. Like any allocation it
/// does not return where the machine is out of memory.
#[verifier::external_body]
fn ring_new(slots: usize) -> (ring: LevelRing)
    requires
        0 < slots <= MAX_SLOTS,
    ensures
        ring_items(ring) == Seq::<i32>::empty(),
        ring_slots(ring) == slots,
{
    LevelRing { ring: HeapRb::<i32>::new(slots) }
}

/// `ringbuf::traits::Producer::try_push` on a whole ring buffer: the level
/// is appended behind the newest one where a slot is free; where none is,
/// the buffer stays as it was and the level is handed back, reported here as
/// `false`.
#[verifier::external_body]
fn ring_try_push(ring: &mut LevelRing, level: i32) -> (accepted: bool)
    ensures
        ring_slots(*final(ring)) == ring_slots(*old(ring)),
        accepted == (ring_items(*old(ring)).len() < ring_slots(*old(ring))),
        accepted ==> ring_items(*final(ring)) == ring_items(*old(ring)).push(level),
        !accepted ==> ring_items(*final(ring)) == ring_items(*old(ring)),
    no_unwind
{
    ring.ring.try_push(level).is_ok()
}

/// `ringbuf::traits::Consumer::try_pop` on a whole ring buffer: the oldest
/// level leaves and is returned; an empty buffer stays empty and gives `None`.
#[verifier::external_body]
fn ring_try_pop(ring: &mut LevelRing) -> (level: Option<i32>)
    ensures
        ring_slots(*final(ring)) == ring_slots(*old(ring)),
        ring_items(*old(ring)).len() == 0 ==> level is None && ring_items(*final(ring))
            == ring_items(*old(ring)),
        ring_items(*old(ring)).len() > 0 ==> level == Some(ring_items(*old(ring))[0])
            && ring_items(*final(ring)) == ring_items(*old(ring)).skip(1),
    no_unwind
{
    ring.ring.try_pop()
}

/// The sending half of a split `ringbuf` heap ring buffer of levels.
#[verifier::external_body]
pub struct LevelSender {
    prod: HeapProd<i32>,
}

/// The receiving half of a split `ringbuf` heap ring buffer of levels.
#[verifier::external_body]
pub struct LevelReceiver {
    cons: HeapCons<i32>,
}

/// The number of slots of the ring buffer that a sending half belongs to.
pub uninterp spec fn sender_slots(sender: LevelSender) -> nat;

/// The number of slots of the ring buffer that a receiving half belongs to.
pub uninterp spec fn receiver_slots(receiver: LevelReceiver) -> nat;

/// The number of slots that a sending half knows to be free. The half keeps
/// its own copy of the place up to which the other side has read, and looks
/// at the shared one only when its copy shows no free slot: the slots free
/// by its copy are free indeed, since the other side only ever frees more.
pub uninterp spec fn sender_free(sender: LevelSender) -> nat;

/// The levels that a sending half holds in the slots it does not know to be
/// free, oldest first: those it saw waiting when it last looked at the other
/// side, and behind them the ones it has sent since. The other side may have
/// taken some of them meanwhile; only the half itself puts a level there.
pub uninterp spec fn sender_held(sender: LevelSender) -> Seq<i32>;

/// The levels that a receiving half knows to be waiting, oldest first. The
/// half keeps its own copy of the place up to which the other side has
/// written, and looks at the shared one only when its copy shows nothing
/// waiting: what waits by its copy waits indeed, since the other side only
/// ever appends behind it.
pub uninterp spec fn receiver_waiting(receiver: LevelReceiver) -> Seq<i32>;

/// `ringbuf::traits::Split::split` on a heap ring buffer: the buffer moves
/// behind a shared pointer and its two halves are returned. Both belong to
/// the buffer that was split, with the slots it was made with, and each
/// starts with a copy of the buffer's places as they are: the sending half
/// knows every slot to be free that is and holds the buffer's levels in the
/// others, and the receiving half knows every level to wait that does.
#[verifier::external_body]
fn ring_split(ring: LevelRing) -> (halves: (LevelSender, LevelReceiver))
    ensures
        sender_slots(halves.0) == ring_slots(ring),
        receiver_slots(halves.1) == ring_slots(ring),
        sender_free(halves.0) + ring_items(ring).len() == ring_slots(ring),
        sender_held(halves.0) == ring_items(ring),
        receiver_waiting(halves.1) == ring_items(ring),
{
    let (prod, cons) = ring.ring.split();
    (LevelSender { prod }, LevelReceiver { cons })
}

/// `ringbuf::traits::Producer::try_push` on the sending half, reported as
/// `true` where the level went in and `false` where it came back. Where the
/// half knows a slot to be free, the level goes in without a look at the
/// other side: one slot less is known to be free, and the level stands
/// behind the ones held. Where it knows none, it looks how far the other
/// side has read: what it then finds depends on the other side. If a slot
/// has become free, the level goes in and is the newest one held; if none
/// has, the half still knows no free slot and holds what it held. The
/// number of slots stays.
#[verifier::external_body]
fn sender_try_push(sender: &mut LevelSender, level: i32) -> (accepted: bool)
    ensures
        sender_slots(*final(sender)) == sender_slots(*old(sender)),
        sender_free(*old(sender)) > 0 ==> accepted && sender_free(*final(sender)) + 1
            == sender_free(*old(sender)),
        sender_free(*old(sender)) > 0 ==> sender_held(*final(sender)) == sender_held(
            *old(sender),
        ).push(level),
        accepted ==> sender_held(*final(sender)).len() > 0 && sender_held(
            *final(sender),
        ).last() == level,
        !accepted ==> sender_free(*final(sender)) == 0,
        !accepted ==> sender_held(*final(sender)) == sender_held(*old(sender)),
{
    sender.prod.try_push(level).is_ok()
}

/// `ringbuf::traits::Consumer::try_pop` on the receiving half. Where the
/// half knows a level to wait, the oldest of them leaves and is returned,
/// without a look at the other side. Where it knows none, it looks how far
/// the other side has written: what it then finds depends on the other
/// side, and nothing is claimed of it but that after `None` the half still
/// knows nothing to wait. The number of slots stays.
#[verifier::external_body]
fn receiver_try_pop(receiver: &mut LevelReceiver) -> (level: Option<i32>)
    ensures
        receiver_slots(*final(receiver)) == receiver_slots(*old(receiver)),
        receiver_waiting(*old(receiver)).len() > 0 ==> level == Some(
            receiver_waiting(*old(receiver))[0],
        ) && receiver_waiting(*final(receiver)) == receiver_waiting(*old(receiver)).skip(1),
        level is None ==> receiver_waiting(*final(receiver)).len() == 0,
{
    receiver.cons.try_pop()
}

/// A whole level channel, before its halves are handed to the two loops.
pub struct LevelChannel {
    ring: LevelRing,
}

impl LevelChannel {
    /// A channel has at least one slot and never holds more levels than slots.
    #[verifier::type_invariant]
    spec fn fits(self) -> bool {
        0 < ring_slots(self.ring) <= MAX_SLOTS && ring_items(self.ring).len() <= ring_slots(
            self.ring,
        )
    }

    /// The levels waiting in the channel, oldest first.
    pub closed spec fn items(self) -> Seq<i32> {
        ring_items(self.ring)
    }

    /// The number of levels the channel can hold.
    pub closed spec fn slots(self) -> nat {
        ring_slots(self.ring)
    }

    /// An empty channel of `slots` slots, or `None` where `slots` is zero or
    /// more than `MAX_SLOTS`.
    pub fn new(slots: usize) -> (made: Option<LevelChannel>)
        ensures
            made is Some <==> 0 < slots <= MAX_SLOTS,
            made is Some ==> made->Some_0.items() == Seq::<i32>::empty() && made->Some_0.slots()
                == slots,
    {
        if slots == 0 || slots > MAX_SLOTS {
            None
        } else {
            Some(LevelChannel::with_slots(slots))
        }
    }

    /// An empty channel of `slots` slots.
    fn with_slots(slots: usize) -> (made: LevelChannel)
        requires
            0 < slots <= MAX_SLOTS,
        ensures
            made.items() == Seq::<i32>::empty(),
            made.slots() == slots,
    {
        LevelChannel { ring: ring_new(slots) }
    }

    /// Offers one level without waiting. A full channel refuses it and stays
    /// as it was; otherwise the level becomes the newest in the channel.
    pub fn try_push(&mut self, level: i32) -> (accepted: bool)
        ensures
            final(self).slots() == old(self).slots(),
            accepted == (old(self).items().len() < old(self).slots()),
            final(self).items() == pushed(old(self).items(), old(self).slots(), level),
    {
        proof {
            use_type_invariant(&*self);
        }
        ring_try_push(&mut self.ring, level)
    }

    /// Takes the oldest level without waiting, or `None` from an empty channel.
    pub fn try_pop(&mut self) -> (level: Option<i32>)
        ensures
            final(self).slots() == old(self).slots(),
            level == oldest(old(self).items()),
            final(self).items() == popped(old(self).items()),
    {
        proof {
            use_type_invariant(&*self);
        }
        ring_try_pop(&mut self.ring)
    }

    /// Offers the levels of `burst` in order, none of them waiting, and
    /// returns how many went in: the oldest of them, as far as slots were free.
    pub fn push_all(&mut self, burst: &[i32]) -> (accepted: usize)
        ensures
            final(self).slots() == old(self).slots(),
            accepted == taken(
                burst@.len(),
                (old(self).slots() - old(self).items().len()) as nat,
            ),
            final(self).items() == old(self).items() + burst@.take(accepted as int),
            final(self).items() == pushed_all(old(self).items(), old(self).slots(), burst@),
    {
        proof {
            use_type_invariant(&*self);
        }
        let mut accepted: usize = 0;
        let mut i: usize = 0;
        while i < burst.len()
            invariant
                i <= burst.len(),
                accepted <= i,
                self.slots() == old(self).slots(),
                old(self).items().len() <= old(self).slots(),
                self.items() == pushed_all(
                    old(self).items(),
                    old(self).slots(),
                    burst@.take(i as int),
                ),
                self.items() == old(self).items() + burst@.take(accepted as int),
                accepted == i || accepted == old(self).slots() - old(self).items().len(),
                accepted <= old(self).slots() - old(self).items().len(),
            decreases burst.len() - i,
        {
            proof {
                assert(burst@.take(i + 1).drop_last() == burst@.take(i as int));
                assert(burst@.take(accepted + 1) == burst@.take(accepted as int).push(
                    burst@[accepted as int],
                ));
            }
            let went_in = self.try_push(burst[i]);
            if went_in {
                accepted = accepted + 1;
            }
            i = i + 1;
        }
        proof {
            assert(burst@.take(burst.len() as int) == burst@);
        }
        accepted
    }

    /// Parts the channel into the half that sends and the half that receives.
    /// Both keep the channel's number of slots; the sending half knows the
    /// channel's free slots to be free and holds its levels in the others,
    /// and the receiving half knows the channel's levels to wait. From here
    /// on each half sees the other's work only when it has run out of what
    /// it knows.
    pub fn split(self) -> (halves: (LevelSender, LevelReceiver))
        ensures
            halves.0.slots() == self.slots(),
            halves.1.slots() == self.slots(),
            halves.0.free() == self.slots() - self.items().len(),
            halves.0.held() == self.items(),
            halves.1.waiting() == self.items(),
    {
        proof {
            use_type_invariant(&self);
        }
        ring_split(self.ring)
    }
}

impl LevelSender {
    /// The number of levels the channel can hold.
    pub closed spec fn slots(self) -> nat {
        sender_slots(self)
    }

    /// The number of slots that this half knows to be free: those it saw
    /// free when it last looked at the receiving side, less the levels it has
    /// sent since. The receiving side may have freed more meanwhile.
    pub closed spec fn free(self) -> nat {
        sender_free(self)
    }

    /// The levels that this half holds in the slots it does not know to be
    /// free, oldest first: those it saw waiting when it last looked at the
    /// receiving side, and behind them the ones it has sent since.
    pub closed spec fn held(self) -> Seq<i32> {
        sender_held(self)
    }

    /// Offers one level without waiting: `true` where it went in, `false`
    /// where the channel was full and the level is dropped. Where this half
    /// knows a slot to be free the level goes in behind the ones held, and
    /// one slot less is known to be free. Where it knows none, the outcome
    /// depends on how far the receiving side has read: a level that goes in
    /// is the newest one held, and after a refusal the half holds what it
    /// held and still knows no free slot.
    pub fn send(&mut self, level: i32) -> (accepted: bool)
        ensures
            final(self).slots() == old(self).slots(),
            old(self).free() > 0 ==> accepted && final(self).free() == old(self).free() - 1
                && final(self).held() == old(self).held().push(level),
            accepted ==> final(self).held().len() > 0 && final(self).held().last() == level,
            !accepted ==> old(self).free() == 0 && final(self).free() == 0 && final(self).held()
                == old(self).held(),
    {
        sender_try_push(self, level)
    }
}

impl LevelReceiver {
    /// The number of levels the channel can hold.
    pub closed spec fn slots(self) -> nat {
        receiver_slots(self)
    }

    /// The levels that this half knows to be waiting, oldest first: those it
    /// saw when it last looked at the sending side, less the ones it has
    /// taken since. The sending side may have appended more meanwhile.
    pub closed spec fn waiting(self) -> Seq<i32> {
        receiver_waiting(self)
    }

    /// Takes the oldest waiting level without waiting for one. Where this
    /// half knows levels to wait, the oldest of them is returned and the
    /// rest is known to wait still. Where it knows none, the outcome depends
    /// on how far the sending side has written; after `None` nothing is
    /// known to wait still.
    pub fn receive(&mut self) -> (level: Option<i32>)
        ensures
            final(self).slots() == old(self).slots(),
            old(self).waiting().len() > 0 ==> level == Some(old(self).waiting()[0])
                && final(self).waiting() == old(self).waiting().skip(1),
            level is None ==> old(self).waiting().len() == 0 && final(self).waiting().len() == 0,
    {
        receiver_try_pop(self)
    }
}

/// Makes one channel of `slots` slots for each of `channels` audio channels
/// and parts each: the sending halves, by channel, and the receiving halves,
/// by channel. `None` where `slots` is zero or more than `MAX_SLOTS`.
pub fn open_channels(channels: usize, slots: usize) -> (halves: Option<
    (Vec<LevelSender>, Vec<LevelReceiver>),
>)
    ensures
        halves is Some <==> 0 < slots <= MAX_SLOTS,
        halves is Some ==> {
            let (senders, receivers) = halves->Some_0;
            &&& senders@.len() == channels
            &&& receivers@.len() == channels
            &&& forall|ch: int|
                0 <= ch < channels ==> (#[trigger] senders@[ch]).slots() == slots
                    && senders@[ch].free() == slots && senders@[ch].held() == Seq::<i32>::empty()
            &&& forall|ch: int|
                0 <= ch < channels ==> (#[trigger] receivers@[ch]).slots() == slots
                    && receivers@[ch].waiting() == Seq::<i32>::empty()
        },
{
    if slots == 0 || slots > MAX_SLOTS {
        return None;
    }
    let mut senders: Vec<LevelSender> = Vec::new();
    let mut receivers: Vec<LevelReceiver> = Vec::new();
    let mut ch: usize = 0;
    while ch < channels
        invariant
            ch <= channels,
            0 < slots <= MAX_SLOTS,
            senders@.len() == ch,
            receivers@.len() == ch,
            forall|c: int|
                0 <= c < ch ==> (#[trigger] senders@[c]).slots() == slots && senders@[c].free()
                    == slots && senders@[c].held() == Seq::<i32>::empty(),
            forall|c: int|
                0 <= c < ch ==> (#[trigger] receivers@[c]).slots() == slots
                    && receivers@[c].waiting() == Seq::<i32>::empty(),
        decreases channels - ch,
    {
        let (sender, receiver) = LevelChannel::with_slots(slots).split();
        senders.push(sender);
        receivers.push(receiver);
        ch = ch + 1;
    }
    Some((senders, receivers))
}

/// The number of sending halves among the first `n` of `senders` that know
/// no free slot.
pub open spec fn known_full(senders: Seq<LevelSender>, n: nat) -> nat
    decreases n,
{
    if n == 0 {
        0
    } else {
        known_full(senders, (n - 1) as nat) + if n - 1 < senders.len() && senders[n - 1].free()
            == 0 {
            1nat
        } else {
            0nat
        }
    }
}

/// Offers `levels[ch]` to the sending half of channel `ch`, for every channel
/// that has both, none of them waiting, and returns how many levels were
/// dropped because their channel was full. Each half is offered the level of
/// its own channel and no other. A half that knows a free slot takes its
/// level behind the ones it holds and knows one slot less to be free; only a
/// half that knows none can drop its level, and whether it does depends on
/// how far the receiving side has read: it then holds what it held, or its
/// channel's level as the newest. A half without a level stays as it is.
pub fn send_all(senders: &mut Vec<LevelSender>, levels: &[i32]) -> (dropped: usize)
    ensures
        final(senders)@.len() == old(senders)@.len(),
        forall|ch: int|
            0 <= ch < old(senders)@.len() ==> (#[trigger] final(senders)@[ch]).slots()
                == old(senders)@[ch].slots(),
        forall|ch: int|
            0 <= ch < old(senders)@.len() && ch < levels@.len() && old(senders)@[ch].free() > 0
                ==> (#[trigger] final(senders)@[ch]).free() == old(senders)@[ch].free() - 1
                && final(senders)@[ch].held() == old(senders)@[ch].held().push(levels@[ch]),
        forall|ch: int|
            0 <= ch < old(senders)@.len() && ch < levels@.len()
                ==> (#[trigger] final(senders)@[ch]).held() == old(senders)@[ch].held() || (
                final(senders)@[ch].held().len() > 0 && final(senders)@[ch].held().last()
                    == levels@[ch]),
        forall|ch: int|
            levels@.len() <= ch < old(senders)@.len() ==> (#[trigger] final(senders)@[ch])
                == old(senders)@[ch],
        dropped <= known_full(old(senders)@, levels@.len()),
        dropped <= levels.len(),
        dropped <= old(senders)@.len(),
{
    let mut dropped: usize = 0;
    let mut ch: usize = 0;
    while ch < senders.len() && ch < levels.len()
        invariant
            senders@.len() == old(senders)@.len(),
            forall|c: int|
                0 <= c < senders@.len() ==> (#[trigger] senders@[c]).slots()
                    == old(senders)@[c].slots(),
            forall|c: int|
                0 <= c < ch && old(senders)@[c].free() > 0 ==> (#[trigger] senders@[c]).free()
                    == old(senders)@[c].free() - 1
                    && senders@[c].held() == old(senders)@[c].held().push(levels@[c]),
            forall|c: int|
                0 <= c < ch ==> (#[trigger] senders@[c]).held() == old(senders)@[c].held() || (
                senders@[c].held().len() > 0 && senders@[c].held().last() == levels@[c]),
            forall|c: int|
                ch <= c < senders@.len() ==> (#[trigger] senders@[c]) == old(senders)@[c],
            dropped <= known_full(old(senders)@, ch as nat),
            dropped <= ch,
            ch <= senders@.len(),
            ch <= levels.len(),
        decreases senders@.len() - ch,
    {
        let accepted = senders[ch].send(levels[ch]);
        if !accepted {
            dropped = dropped + 1;
        }
        ch = ch + 1;
    }
    proof {
        lemma_known_full_beyond(old(senders)@, ch as nat, levels@.len());
    }
    dropped
}

/// Beyond the last sending half there is none to count.
proof fn lemma_known_full_beyond(senders: Seq<LevelSender>, n: nat, m: nat)
    requires
        n <= m,
        n == m || n >= senders.len(),
    ensures
        known_full(senders, m) == known_full(senders, n),
    decreases m,
{
    if n < m {
        lemma_known_full_beyond(senders, n, (m - 1) as nat);
    }
}

/// Polls the receiving half of every channel once, without waiting, and
/// returns what each gave, by channel: a fresh level, or `None` on an
/// underrun. A half that knows levels to wait gives the oldest of them and
/// knows the rest to wait still. A half that knows none gives what the
/// sending side has written meanwhile, if anything; after `None` it still
/// knows nothing to wait.
pub fn receive_all(receivers: &mut Vec<LevelReceiver>) -> (fresh: Vec<Option<i32>>)
    ensures
        final(receivers)@.len() == old(receivers)@.len(),
        forall|ch: int|
            0 <= ch < old(receivers)@.len() ==> (#[trigger] final(receivers)@[ch]).slots()
                == old(receivers)@[ch].slots(),
        fresh@.len() == old(receivers)@.len(),
        forall|ch: int|
            #![trigger fresh@[ch]]
            #![trigger final(receivers)@[ch]]
            0 <= ch < old(receivers)@.len() && old(receivers)@[ch].waiting().len() > 0
                ==> fresh@[ch] == Some(old(receivers)@[ch].waiting()[0])
                && final(receivers)@[ch].waiting() == old(receivers)@[ch].waiting().skip(1),
        forall|ch: int|
            0 <= ch < old(receivers)@.len() && (#[trigger] fresh@[ch]) is None
                ==> old(receivers)@[ch].waiting().len() == 0
                && final(receivers)@[ch].waiting().len() == 0,
{
    let mut fresh: Vec<Option<i32>> = Vec::new();
    let mut ch: usize = 0;
    while ch < receivers.len()
        invariant
            receivers@.len() == old(receivers)@.len(),
            forall|c: int|
                0 <= c < receivers@.len() ==> (#[trigger] receivers@[c]).slots()
                    == old(receivers)@[c].slots(),
            forall|c: int|
                ch <= c < receivers@.len() ==> (#[trigger] receivers@[c]) == old(receivers)@[c],
            forall|c: int|
                0 <= c < ch && old(receivers)@[c].waiting().len() > 0 ==> (#[trigger] fresh@[c])
                    == Some(old(receivers)@[c].waiting()[0])
                    && receivers@[c].waiting() == old(receivers)@[c].waiting().skip(1),
            forall|c: int|
                0 <= c < ch && (#[trigger] fresh@[c]) is None
                    ==> old(receivers)@[c].waiting().len() == 0
                    && receivers@[c].waiting().len() == 0,
            fresh@.len() == ch,
            ch <= receivers@.len(),
        decreases receivers@.len() - ch,
    {
        let polled = receivers[ch].receive();
        fresh.push(polled);
        ch = ch + 1;
    }
    fresh
}

/// The contents of a channel of `slots` slots after `level` was offered.
pub open spec fn pushed(items: Seq<i32>, slots: nat, level: i32) -> Seq<i32> {
    if items.len() < slots {
        items.push(level)
    } else {
        items
    }
}

/// The level that a pop returns.
pub open spec fn oldest(items: Seq<i32>) -> Option<i32> {
    if items.len() == 0 {
        None
    } else {
        Some(items[0])
    }
}

/// The contents of a channel after a pop.
pub open spec fn popped(items: Seq<i32>) -> Seq<i32> {
    if items.len() == 0 {
        items
    } else {
        items.skip(1)
    }
}

/// The contents of a channel of `slots` slots after the levels of `burst`
/// were offered in order, with no pop between them.
pub open spec fn pushed_all(items: Seq<i32>, slots: nat, burst: Seq<i32>) -> Seq<i32>
    decreases burst.len(),
{
    if burst.len() == 0 {
        items
    } else {
        pushed(pushed_all(items, slots, burst.drop_last()), slots, burst.last())
    }
}

/// The number of levels of a burst of `offered` levels that a channel with
/// `free` free slots takes.
pub open spec fn taken(offered: nat, free: nat) -> nat {
    if offered <= free {
        offered
    } else {
        free
    }
}

/// Pushing without popping keeps what was there, then takes the oldest
/// levels of the burst, in their order, until the channel is full; every
/// later level is refused and changes nothing.
pub proof fn lemma_burst_keeps_oldest(items: Seq<i32>, slots: nat, burst: Seq<i32>)
    requires
        items.len() <= slots,
    ensures
        pushed_all(items, slots, burst) == items + burst.take(
            taken(burst.len(), (slots - items.len()) as nat) as int,
        ),
        pushed_all(items, slots, burst).len() <= slots,
        burst.len() >= slots - items.len() ==> forall|level: i32| #[trigger]
            pushed(pushed_all(items, slots, burst), slots, level) == pushed_all(
                items,
                slots,
                burst,
            ),
    decreases burst.len(),
{
    let free = (slots - items.len()) as nat;
    if burst.len() == 0 {
        assert(items + burst.take(0) == items);
    } else {
        let front = burst.drop_last();
        lemma_burst_keeps_oldest(items, slots, front);
        let kept = taken(front.len(), free);
        assert(front.take(kept as int) == burst.take(kept as int));
        if front.len() < free {
            assert(burst.take(kept as int + 1) == burst.take(kept as int).push(burst.last()));
            assert((items + burst.take(kept as int)).push(burst.last()) == items + burst.take(
                kept as int + 1,
            ));
        }
    }
}

/// What was pushed first is popped first: from a channel that was empty
/// before a burst, the first pop returns the first level of the burst.
pub proof fn lemma_first_in_first_out(slots: nat, burst: Seq<i32>)
    requires
        slots > 0,
        burst.len() > 0,
    ensures
        oldest(pushed_all(Seq::<i32>::empty(), slots, burst)) == Some(burst[0]),
        popped(pushed_all(Seq::<i32>::empty(), slots, burst)) == burst.take(
            taken(burst.len(), slots) as int,
        ).skip(1),
{
    lemma_burst_keeps_oldest(Seq::<i32>::empty(), slots, burst);
    assert(Seq::<i32>::empty() + burst.take(taken(burst.len(), slots) as int) == burst.take(
        taken(burst.len(), slots) as int,
    ));
}

/// One call on a channel: a level offered, or a level asked for.
pub enum Call {
    Push(i32),
    Pop,
}

/// The contents of a channel of `slots` slots after the calls of `calls`, in
/// order, were made on a channel that held `items`.
pub open spec fn contents_after(items: Seq<i32>, slots: nat, calls: Seq<Call>) -> Seq<i32>
    decreases calls.len(),
{
    if calls.len() == 0 {
        items
    } else {
        let before = contents_after(items, slots, calls.drop_last());
        match calls.last() {
            Call::Push(level) => pushed(before, slots, level),
            Call::Pop => popped(before),
        }
    }
}

/// The levels offered by the calls of `calls`, in order.
pub open spec fn offered_by(calls: Seq<Call>) -> Seq<i32>
    decreases calls.len(),
{
    if calls.len() == 0 {
        Seq::<i32>::empty()
    } else {
        match calls.last() {
            Call::Push(level) => offered_by(calls.drop_last()).push(level),
            Call::Pop => offered_by(calls.drop_last()),
        }
    }
}

/// The levels that the pops among the calls of `calls` returned, in order,
/// on a channel of `slots` slots that held `items`.
pub open spec fn received_by(items: Seq<i32>, slots: nat, calls: Seq<Call>) -> Seq<i32>
    decreases calls.len(),
{
    if calls.len() == 0 {
        Seq::<i32>::empty()
    } else {
        let earlier = received_by(items, slots, calls.drop_last());
        match calls.last() {
            Call::Push(level) => earlier,
            Call::Pop => match oldest(contents_after(items, slots, calls.drop_last())) {
                Some(level) => earlier.push(level),
                None => earlier,
            },
        }
    }
}

/// `part` can be had from `whole` by leaving levels out, keeping the order
/// of the rest.
pub open spec fn is_thinned(part: Seq<i32>, whole: Seq<i32>) -> bool
    decreases whole.len(),
{
    if part.len() == 0 {
        true
    } else if whole.len() == 0 {
        false
    } else if part.last() == whole.last() && is_thinned(part.drop_last(), whole.drop_last()) {
        true
    } else {
        is_thinned(part, whole.drop_last())
    }
}

/// Whatever pushes and pops are made on an empty channel, in whatever
/// order: the levels received, followed by those still waiting, are the
/// levels offered with the refused ones left out, in the order in which they
/// were offered. Nothing is received twice, nothing out of order, and never
/// do more levels wait than the channel has slots.
pub proof fn lemma_received_in_offered_order(slots: nat, calls: Seq<Call>)
    ensures
        is_thinned(
            received_by(Seq::<i32>::empty(), slots, calls) + contents_after(
                Seq::<i32>::empty(),
                slots,
                calls,
            ),
            offered_by(calls),
        ),
        contents_after(Seq::<i32>::empty(), slots, calls).len() <= slots,
    decreases calls.len(),
{
    let nothing = Seq::<i32>::empty();
    if calls.len() == 0 {
        assert(received_by(nothing, slots, calls) + contents_after(nothing, slots, calls)
            =~= nothing);
    } else {
        let earlier = calls.drop_last();
        lemma_received_in_offered_order(slots, earlier);
        let got = received_by(nothing, slots, earlier);
        let waiting = contents_after(nothing, slots, earlier);
        let offered = offered_by(earlier);
        match calls.last() {
            Call::Push(level) => {
                if waiting.len() < slots {
                    let now = got + waiting.push(level);
                    assert(now.drop_last() =~= got + waiting);
                    assert(now.last() == level);
                    assert(offered.push(level).drop_last() =~= offered);
                } else {
                    assert(offered.push(level).drop_last() =~= offered);
                }
            },
            Call::Pop => {
                if waiting.len() > 0 {
                    assert(got.push(waiting[0]) + waiting.skip(1) =~= got + waiting);
                }
            },
        }
    }
}

} // verus!
