//! Which samples have been seen, and which addresses are this host's own.

use crate::capture::capture::{pushed, pushed_all};
use crate::common::{IpAddr, TopicGid, IP_FAMILY_V4, IP_FAMILY_V6};
use std::collections::{HashMap, HashSet, VecDeque};
use vstd::prelude::*;

verus! {

broadcast use vstd::std_specs::hash::group_hash_axioms;

// Bytes as numbers.

/// The number that bytes spell, most significant first.
pub open spec fn number(bytes: Seq<u8>) -> nat
    decreases bytes.len(),
{
    if bytes.len() == 0 {
        0
    } else {
        number(bytes.drop_last()) * 256 + bytes.last() as nat
    }
}

/// How many numbers so many bytes can spell.
spec fn limit(len: nat) -> nat
    decreases len,
{
    if len == 0 {
        1
    } else {
        limit((len - 1) as nat) * 256
    }
}

proof fn lemma_limit_grows(less: nat, more: nat)
    requires
        less <= more,
    ensures
        limit(less) <= limit(more),
    decreases more,
{
    if less < more {
        lemma_limit_grows(less, (more - 1) as nat);
    }
}

proof fn lemma_number_below(bytes: Seq<u8>)
    ensures
        number(bytes) < limit(bytes.len()),
    decreases bytes.len(),
{
    if bytes.len() > 0 {
        lemma_number_below(bytes.drop_last());
    }
}

proof fn lemma_number_tells_apart(a: Seq<u8>, b: Seq<u8>)
    requires
        a.len() == b.len(),
        number(a) == number(b),
    ensures
        a == b,
    decreases a.len(),
{
    if a.len() > 0 {
        lemma_number_tells_apart(a.drop_last(), b.drop_last());
        assert(a =~= a.drop_last().push(a.last()));
        assert(b =~= b.drop_last().push(b.last()));
    } else {
        assert(a =~= b);
    }
}

/// The number that up to sixteen bytes spell.
fn number_of(bytes: &[u8]) -> (r: u128)
    requires
        bytes@.len() <= 16,
    ensures
        r == number(bytes@),
        r < limit(bytes@.len()),
{
    let mut r: u128 = 0;
    let mut i: usize = 0;
    proof {
        reveal_with_fuel(limit, 17);
        assert(limit(16) == 0x1_0000_0000_0000_0000_0000_0000_0000_0000);
    }
    while i < bytes.len()
        invariant
            i <= bytes@.len(),
            bytes@.len() <= 16,
            limit(16) == 0x1_0000_0000_0000_0000_0000_0000_0000_0000,
            r == number(bytes@.take(i as int)),
        decreases bytes@.len() - i,
    {
        let ghost next = bytes@.take(i + 1);
        proof {
            assert(next.drop_last() =~= bytes@.take(i as int));
            lemma_number_below(next);
            lemma_limit_grows(next.len(), 16);
        }
        r = r * 256 + bytes[i] as u128;
        i += 1;
    }
    proof {
        assert(bytes@.take(i as int) =~= bytes@);
        lemma_number_below(bytes@);
    }
    r
}

// Samples.

/// What tells samples apart: their writer and their number.
#[derive(Clone, Copy, Debug, Eq, PartialEq)]
pub struct SampleIdentity {
    pub writer_gid: TopicGid,
    pub sequence_number: [u8; 8],
}

/// The numbers of a sample's writer and of the sample.
spec fn sample_key(sample: SampleIdentity) -> (nat, nat) {
    (number(sample.writer_gid.bytes@), number(sample.sequence_number@))
}

proof fn lemma_key_tells_apart(a: SampleIdentity, b: SampleIdentity)
    requires
        sample_key(a) == sample_key(b),
    ensures
        a == b,
{
    lemma_number_tells_apart(a.writer_gid.bytes@, b.writer_gid.bytes@);
    lemma_number_tells_apart(a.sequence_number@, b.sequence_number@);
    assert(a.writer_gid.bytes =~= b.writer_gid.bytes);
    assert(a.sequence_number =~= b.sequence_number);
}

fn key_of(sample: &SampleIdentity) -> (r: (u128, u64))
    ensures
        (r.0 as nat, r.1 as nat) == sample_key(*sample),
{
    let writer: u128 = number_of(sample.writer_gid.bytes.as_slice());
    let number: u128 = number_of(sample.sequence_number.as_slice());
    proof {
        reveal_with_fuel(limit, 9);
        assert(limit(8) == 0x1_0000_0000_0000_0000);
    }
    (writer, number as u64)
}

/// Remembers the samples that were seen last.
pub struct RecentSampleCache {
    seen: HashMap<u128, HashSet<u64>>,
    order: VecDeque<SampleIdentity>,
    capacity: usize,
}

/// The pair is among the numbers that were seen.
spec fn in_seen(seen: Map<u128, HashSet<u64>>, writer: u128, sample: u64) -> bool {
    seen.contains_key(writer) && seen[writer]@.contains(sample)
}

/// Sample `i` of the list has the given numbers.
spec fn has_pair(order: Seq<SampleIdentity>, i: int, writer: u128, sample: u64) -> bool {
    0 <= i < order.len() && sample_key(order[i]) == (writer as nat, sample as nat)
}

/// The samples of a list are all different, and their numbers are those that were seen.
spec fn consistent(seen: Map<u128, HashSet<u64>>, order: Seq<SampleIdentity>) -> bool {
    &&& order.no_duplicates()
    &&& forall|writer: u128, sample: u64|
        #![trigger in_seen(seen, writer, sample)]
        in_seen(seen, writer, sample) <==> exists|i: int| has_pair(order, i, writer, sample)
}

impl View for RecentSampleCache {
    type V = Seq<SampleIdentity>;

    /// The samples that are remembered, oldest first.
    closed spec fn view(&self) -> Seq<SampleIdentity> {
        self.order@
    }
}

impl RecentSampleCache {
    /// What is looked up is what is remembered.
    pub closed spec fn wf(&self) -> bool {
        consistent(self.seen@, self.order@)
    }

    /// How many samples are remembered.
    pub closed spec fn capacity(&self) -> usize {
        self.capacity
    }

    /// A cache that remembers the last `capacity` samples.
    pub fn new(capacity: usize) -> (r: RecentSampleCache)
        ensures
            r.wf(),
            r@ == Seq::<SampleIdentity>::empty(),
            r.capacity() == capacity,
    {
        let r = RecentSampleCache { seen: HashMap::new(), order: VecDeque::new(), capacity };
        assert(r.order@ =~= seq![]);
        r
    }

    fn forget(&mut self, writer: u128, sample: u64)
        ensures
            final(self).order == old(self).order,
            final(self).capacity == old(self).capacity,
            forall|w: u128, s: u64|
                #![trigger in_seen(final(self).seen@, w, s)]
                in_seen(final(self).seen@, w, s) <==> in_seen(old(self).seen@, w, s) && (w, s) != (
                    writer,
                    sample,
                ),
    {
        match self.seen.remove(&writer) {
            None => {},
            Some(mut samples) => {
                let ghost before = samples@;
                samples.remove(&sample);
                assert(samples@ =~= before.remove(sample));
                if !samples.is_empty() {
                    self.seen.insert(writer, samples);
                } else {
                    assert forall|s: u64| before.contains(s) implies s == sample by {
                        if s != sample {
                            assert(samples@.contains(s));
                        }
                    }
                }
            },
        }
    }

    fn remember(&mut self, writer: u128, sample: u64)
        ensures
            final(self).order == old(self).order,
            final(self).capacity == old(self).capacity,
            forall|w: u128, s: u64|
                #![trigger in_seen(final(self).seen@, w, s)]
                in_seen(final(self).seen@, w, s) <==> in_seen(old(self).seen@, w, s) || (w, s) == (
                    writer,
                    sample,
                ),
    {
        let mut samples = match self.seen.remove(&writer) {
            None => HashSet::new(),
            Some(samples) => samples,
        };
        samples.insert(sample);
        self.seen.insert(writer, samples);
    }

    /// Remembers a sample and says whether it is new. At its capacity the cache forgets
    /// the oldest sample.
    pub fn insert(&mut self, sample: SampleIdentity) -> (r: bool)
        requires
            old(self).wf(),
        ensures
            final(self).wf(),
            final(self).capacity() == old(self).capacity(),
            r == !old(self)@.contains(sample),
            final(self)@ == (if r {
                pushed(old(self)@, sample, old(self).capacity())
            } else {
                old(self)@
            }),
    {
        let ghost start = self.order@;
        let (writer, number) = key_of(&sample);
        let known = match self.seen.get(&writer) {
            None => false,
            Some(samples) => samples.contains(&number),
        };
        proof {
            assert(known == in_seen(self.seen@, writer, number));
            if start.contains(sample) {
                let i = choose|i: int| 0 <= i < start.len() && start[i] == sample;
                assert(has_pair(start, i, writer, number));
            }
            if known {
                let i = choose|i: int| has_pair(start, i, writer, number);
                lemma_key_tells_apart(start[i], sample);
                assert(start.contains(sample));
            }
        }
        if known {
            return false;
        }
        if self.order.len() == self.capacity {
            match self.order.pop_front() {
                None => {},
                Some(oldest) => {
                    let (w, s) = key_of(&oldest);
                    self.forget(w, s);
                    assert(start =~= seq![oldest] + self.order@);
                    proof {
                        lemma_forgotten(old(self).seen@, self.seen@, start, w, s);
                        assert(start.drop_first() =~= self.order@);
                    }
                },
            }
        }
        let ghost kept = self.order@;
        assert(consistent(self.seen@, kept));
        let ghost before = self.seen@;
        self.order.push_back(sample);
        self.remember(writer, number);
        proof {
            assert(!kept.contains(sample)) by {
                if kept.contains(sample) {
                    let i = choose|i: int| 0 <= i < kept.len() && kept[i] == sample;
                    if kept != start {
                        assert(start[i + 1] == sample);
                    }
                    assert(start.contains(sample));
                }
            }
            lemma_remembered(before, self.seen@, kept, sample, writer, number);
            assert(self.order@ =~= kept.push(sample));
            assert(self.order@ =~= pushed(start, sample, old(self).capacity));
        }
        true
    }
}

proof fn lemma_forgotten(
    before: Map<u128, HashSet<u64>>,
    after: Map<u128, HashSet<u64>>,
    order: Seq<SampleIdentity>,
    writer: u128,
    sample: u64,
)
    requires
        consistent(before, order),
        has_pair(order, 0, writer, sample),
        forall|w: u128, s: u64|
            #![trigger in_seen(after, w, s)]
            in_seen(after, w, s) <==> in_seen(before, w, s) && (w, s) != (writer, sample),
    ensures
        consistent(after, order.drop_first()),
{
    let rest = order.drop_first();
    assert forall|i: int, j: int| 0 <= i < rest.len() && 0 <= j < rest.len() && i
        != j implies rest[i] != rest[j] by {
        assert(order[i + 1] != order[j + 1]);
    }
    assert forall|w: u128, s: u64|
        #![trigger in_seen(after, w, s)]
        in_seen(after, w, s) <==> exists|i: int| has_pair(rest, i, w, s) by {
        if in_seen(after, w, s) {
            assert(in_seen(before, w, s));
            let i = choose|i: int| has_pair(order, i, w, s);
            assert(i != 0);
            assert(has_pair(rest, i - 1, w, s));
        }
        if exists|i: int| has_pair(rest, i, w, s) {
            let i = choose|i: int| has_pair(rest, i, w, s);
            assert(has_pair(order, i + 1, w, s));
            assert(in_seen(before, w, s));
            if (w, s) == (writer, sample) {
                lemma_key_tells_apart(order[0], order[i + 1]);
                assert(order[0] != order[i + 1]);
            }
        }
    }
}

proof fn lemma_remembered(
    before: Map<u128, HashSet<u64>>,
    after: Map<u128, HashSet<u64>>,
    order: Seq<SampleIdentity>,
    added: SampleIdentity,
    writer: u128,
    sample: u64,
)
    requires
        consistent(before, order),
        !order.contains(added),
        sample_key(added) == (writer as nat, sample as nat),
        forall|w: u128, s: u64|
            #![trigger in_seen(after, w, s)]
            in_seen(after, w, s) <==> in_seen(before, w, s) || (w, s) == (writer, sample),
    ensures
        consistent(after, order.push(added)),
{
    let all = order.push(added);
    let n = order.len() as int;
    assert forall|i: int, j: int| 0 <= i < all.len() && 0 <= j < all.len() && i
        != j implies all[i] != all[j] by {
        if i < n && j < n {
            assert(order[i] != order[j]);
        }
    }
    assert forall|w: u128, s: u64|
        #![trigger in_seen(after, w, s)]
        in_seen(after, w, s) <==> exists|i: int| has_pair(all, i, w, s) by {
        if in_seen(before, w, s) {
            let i = choose|i: int| has_pair(order, i, w, s);
            assert(has_pair(all, i, w, s));
        }
        if (w, s) == (writer, sample) {
            assert(has_pair(all, n, w, s));
        }
        if exists|i: int| has_pair(all, i, w, s) {
            let i = choose|i: int| has_pair(all, i, w, s);
            if i < n {
                assert(has_pair(order, i, w, s));
                assert(in_seen(before, w, s));
            }
        }
    }
}

/// A sample that comes again while it is remembered is never taken for new.
pub proof fn law_repeated_sample_is_known(
    order: Seq<SampleIdentity>,
    sample: SampleIdentity,
    others: Seq<SampleIdentity>,
    capacity: usize,
)
    requires
        order.len() <= capacity,
        others.len() < capacity,
    ensures
        pushed_all(pushed(order, sample, capacity), others, capacity).contains(sample),
{
    let first = pushed(order, sample, capacity);
    crate::capture::capture::law_queue_keeps_newest(first, others, capacity);
    let all = first + others;
    let kept = crate::capture::capture::newest(all, capacity);
    let at = first.len() - 1;
    assert(all[at] == sample);
    let dropped = all.len() - kept.len();
    assert(kept[at - dropped] == sample);
}

// Addresses.

/// The addresses of this host.
pub struct LocalIps {
    pub v4: Vec<[u8; 4]>,
    pub v6: Vec<[u8; 16]>,
}

/// The first four bytes of an address are those of an IPv4 address.
pub open spec fn is_v4(ip: IpAddr, address: [u8; 4]) -> bool {
    &&& ip.bytes[0] == address[0]
    &&& ip.bytes[1] == address[1]
    &&& ip.bytes[2] == address[2]
    &&& ip.bytes[3] == address[3]
}

/// An address is this host's own.
pub open spec fn local_ip(ips: LocalIps, ip: IpAddr) -> bool {
    if ip.family == IP_FAMILY_V4 {
        exists|i: int| 0 <= i < ips.v4@.len() && is_v4(ip, #[trigger] ips.v4@[i])
    } else if ip.family == IP_FAMILY_V6 {
        ips.v6@.contains(ip.bytes)
    } else {
        false
    }
}

impl LocalIps {
    /// Whether an address is this host's own.
    pub fn contains(&self, ip: &IpAddr) -> (r: bool)
        ensures
            r == local_ip(*self, *ip),
    {
        if ip.family == IP_FAMILY_V4 {
            let mut i: usize = 0;
            while i < self.v4.len()
                invariant
                    ip.family == IP_FAMILY_V4,
                    i <= self.v4.len(),
                    forall|j: int| 0 <= j < i ==> !is_v4(*ip, #[trigger] self.v4@[j]),
                decreases self.v4.len() - i,
            {
                let address = self.v4[i];
                if ip.bytes[0] == address[0] && ip.bytes[1] == address[1] && ip.bytes[2]
                    == address[2] && ip.bytes[3] == address[3] {
                    assert(is_v4(*ip, self.v4@[i as int]));
                    return true;
                }
                i += 1;
            }
            false
        } else if ip.family == IP_FAMILY_V6 {
            let mut i: usize = 0;
            while i < self.v6.len()
                invariant
                    ip.family == IP_FAMILY_V6,
                    i <= self.v6.len(),
                    forall|j: int| 0 <= j < i ==> #[trigger] self.v6@[j] != ip.bytes,
                decreases self.v6.len() - i,
            {
                if crate::common::same_bytes(&self.v6[i], &ip.bytes) {
                    assert(self.v6@[i as int] == ip.bytes);
                    return true;
                }
                i += 1;
            }
            false
        } else {
            false
        }
    }
}

} // verus!
