//! What the probe does with what it captures, seen from outside.

use crate::base64_text::base64_encoded;
use crate::command::names::internal_name;
use crate::common::{v4_address, IpAddr, TopicGid};
use crate::discovery::ros_graph::parsed_entities;
use crate::payload::payload_bytes;
use crate::runtime::bag::{records, TopicReach};
use crate::runtime::echo::{echo_taken, sequence_value};
use crate::runtime::delay::delay_taken;
use crate::runtime::events::{
    change_actions, external_interface, external_names, identity_of, is_data_outcome, is_taken_in,
    remote_after, says_interrupted, DataOutcome, DiscoveryChange, EventOutcome, EventView,
    FailureCause, InterfaceFacts, RtpsEvent,
};
use crate::runtime::filter::{
    has_shm_publisher, is_wanted_filter, shadow_wanted, ShadowCandidate, TopicFilter,
};
use crate::runtime::observers::{DataMessage, TopicMetadata};
use crate::runtime::samples::{local_ip, LocalIps};
use crate::runtime::sessions::SessionsView;
use crate::text::{contains_text, text_opt, texts};
use vstd::prelude::*;
use vstd::string::*;

verus! {

// Messages.

/// A message on a topic that is not internal reaches everything that watches: its size and
/// when it came go to the bandwidth, when it came to the rate, and its type and its payload
/// to the echo and the delay. The recording is left alone. The recorder has it just where
/// the recording takes it.
pub proof fn law_message_reaches_all_watchers(
    outcome: DataOutcome,
    message: DataMessage,
    metadata: TopicMetadata,
    published_topic: Option<Seq<char>>,
    reach: Option<TopicReach>,
    before: SessionsView,
    after: SessionsView,
    now: u64,
)
    requires
        is_data_outcome(
            outcome,
            message,
            Some(metadata),
            published_topic,
            reach,
            before,
            after,
            now,
        ),
        !internal_name(metadata.topic_name@),
    ensures
        ({
            let topic = metadata.topic_name@;
            let payload = payload_bytes(message.payload);
            &&& after.recording == before.recording
            &&& outcome.record <==> (before.recording matches Some(recording) && records(
                recording,
                topic,
                reach,
            ))
            &&& before.bw is None <==> after.bw is None
            &&& before.bw matches Some(view) ==> {
                let later = after.bw->0;
                &&& view.topic_name != topic ==> later == view
                &&& view.topic_name == topic && view.sizes.len() < view.window_size ==> later.sizes
                    == view.sizes.push(payload.len() as u64)
                &&& view.topic_name == topic && view.observed_at.len() < view.window_size
                    ==> later.observed_at == view.observed_at.push(now)
            }
            &&& before.hz is None <==> after.hz is None
            &&& before.hz matches Some(view) ==> {
                let later = after.hz->0;
                &&& view.topic_name != topic ==> later == view
                &&& view.topic_name == topic ==> later.last_message_at == Some(now)
                &&& view.topic_name == topic && view.periods.len() < view.window_size ==> (
                view.last_message_at matches Some(then) ==> (then <= now ==> later.periods
                    == view.periods.push((now - then) as u64)))
            }
            &&& before.delay is None <==> after.delay is None
            &&& before.delay matches Some(view) ==> after.delay->0 == delay_taken(
                view,
                topic,
                text_opt(metadata.ros_type),
                message.socket_timestamp,
                payload,
                base64_encoded(payload),
            )
            &&& before.echo is None <==> after.echo is None
            &&& before.echo is None ==> outcome.reply is None
            &&& before.echo matches Some(view) ==> {
                let (later, answer) = echo_taken(
                    view,
                    topic,
                    text_opt(metadata.ros_type),
                    message.writer_gid,
                    sequence_value(message.sequence_number) as i64,
                    base64_encoded(payload),
                );
                &&& after.echo->0 == later
                &&& answer is None <==> outcome.reply is None
                &&& outcome.reply matches Some(reply) ==> answer == Some(
                    (reply.reply, reply.response@),
                )
            }
        }),
{
}

/// A message on a topic of which nothing is known touches nothing that is watched and does
/// not go to the recorder.
pub proof fn law_unknown_topics_touch_nothing(
    outcome: DataOutcome,
    message: DataMessage,
    published_topic: Option<Seq<char>>,
    reach: Option<TopicReach>,
    before: SessionsView,
    after: SessionsView,
    now: u64,
)
    requires
        is_data_outcome(
            outcome,
            message,
            None,
            published_topic,
            reach,
            before,
            after,
            now,
        ),
    ensures
        after == before,
        !outcome.record,
        outcome.reply is None,
{
}

/// Nodes are read from every message on the topic on which they are listed, whether the name
/// of the topic is known from its endpoints or from its writer alone, and from no other.
pub proof fn law_nodes_read_from_their_topic(
    outcome: DataOutcome,
    message: DataMessage,
    metadata: Option<TopicMetadata>,
    published_topic: Option<Seq<char>>,
    reach: Option<TopicReach>,
    before: SessionsView,
    after: SessionsView,
    now: u64,
)
    requires
        is_data_outcome(
            outcome,
            message,
            metadata,
            published_topic,
            reach,
            before,
            after,
            now,
        ),
    ensures
        ({
            let topic = if metadata is Some {
                Some(metadata->0.topic_name@)
            } else {
                published_topic
            };
            let lists = topic == Some("/ros_discovery_info"@) || topic == Some(
                "rt/ros_discovery_info"@,
            );
            let parsed = parsed_entities(payload_bytes(message.payload));
            &&& outcome.nodes is Some <==> lists
            &&& outcome.nodes matches Some(Ok(info)) ==> (parsed matches Ok(wanted) && info@
                == wanted)
            &&& outcome.nodes matches Some(Err(error)) ==> (parsed matches Err(wanted) && error
                == wanted)
        }),
{
}

/// Two messages count as one if and only if one writer sent both under one number.
pub proof fn law_messages_told_apart(first: DataMessage, second: DataMessage)
    ensures
        identity_of(first) == identity_of(second) <==> first.writer_gid == second.writer_gid
            && first.sequence_number == second.sequence_number,
{
}

/// A message that is remembered is passed over: nothing changes, and nothing is to be done.
/// Any other is remembered, behind those that are remembered already, of which the oldest
/// goes where there are as many as may be, and is handed on. The ROS graph has changed just
/// where nodes were read from it.
pub proof fn law_messages_count_once(
    message: DataMessage,
    metadata: Option<TopicMetadata>,
    published_topic: Option<String>,
    reach: Option<TopicReach>,
    local_ips: LocalIps,
    before: EventView,
    after: EventView,
    capacity: usize,
    now: u64,
    outcome: EventOutcome,
)
    requires
        is_taken_in(
            (RtpsEvent::Message { message, metadata, published_topic, reach }),
            local_ips,
            before,
            after,
            capacity,
            now,
            outcome,
        ),
    ensures
        after.remote == before.remote,
        outcome.clear_nodes_of is None,
        !outcome.sync_filter,
        ({
            let seen = exists|i: int|
                0 <= i < before.recent.len() && (#[trigger] before.recent[i]).writer_gid
                    == message.writer_gid && before.recent[i].sequence_number
                    == message.sequence_number;
            &&& seen ==> after.recent == before.recent && after.sessions == before.sessions
                && outcome.data is None && !outcome.refresh
            &&& !seen ==> {
                let n = after.recent.len();
                &&& n > 0
                &&& after.recent[n - 1].writer_gid == message.writer_gid
                &&& after.recent[n - 1].sequence_number == message.sequence_number
                &&& before.recent.len() < capacity ==> after.recent.drop_last() == before.recent
                &&& before.recent.len() == capacity && capacity > 0 ==> after.recent.drop_last()
                    == before.recent.skip(1)
                &&& outcome.data is Some
                &&& outcome.refresh <==> outcome.data->0.nodes is Some
                    && outcome.data->0.nodes->0 is Ok
                &&& is_data_outcome(
                    outcome.data->0,
                    message,
                    metadata,
                    text_opt(published_topic),
                    reach,
                    before.sessions,
                    after.sessions,
                    now,
                )
            }
        }),
{
    let identity = identity_of(message);
    if before.recent.contains(identity) {
        let i = choose|i: int| 0 <= i < before.recent.len() && before.recent[i] == identity;
        assert(before.recent[i].writer_gid == message.writer_gid);
    } else {
        assert forall|i: int| 0 <= i < before.recent.len() implies (
        #[trigger] before.recent[i]).writer_gid != message.writer_gid
            || before.recent[i].sequence_number != message.sequence_number by {
            if before.recent[i].writer_gid == message.writer_gid
                && before.recent[i].sequence_number == message.sequence_number {
                assert(before.recent[i] == identity);
            }
        }
        if before.recent.len() < capacity {
            assert(after.recent.drop_last() =~= before.recent);
        } else if before.recent.len() == capacity && capacity > 0 {
            assert(after.recent.drop_last() =~= before.recent.skip(1));
        }
    }
}

/// A discovery sample touches nothing that is watched or remembered. What it has changed in
/// the tables is what is to be done, and a participant that announced itself from another
/// host is noted.
pub proof fn law_discovery_touches_no_session(
    participant: Option<TopicGid>,
    src_ip: IpAddr,
    change: DiscoveryChange,
    local_ips: LocalIps,
    before: EventView,
    after: EventView,
    capacity: usize,
    now: u64,
    outcome: EventOutcome,
    gid: TopicGid,
)
    requires
        is_taken_in(
            (RtpsEvent::Discovery { participant, src_ip, change }),
            local_ips,
            before,
            after,
            capacity,
            now,
            outcome,
        ),
    ensures
        after.sessions == before.sessions,
        after.recent == before.recent,
        after.remote.contains(gid) <==> before.remote.contains(gid) || (participant == Some(gid)
            && !local_ip(local_ips, src_ip)),
        outcome.data is None,
        outcome.refresh <==> !(change is Noop),
        outcome.sync_filter <==> change is Inserted || change is RemovedEndpoint
            || change is RemovedParticipant,
        outcome.clear_nodes_of == Some(gid) <==> change == DiscoveryChange::RemovedParticipant(gid),
        outcome.clear_nodes_of is Some <==> change is RemovedParticipant,
{
    law_remote_participants(before.remote, participant, local_ip(local_ips, src_ip), gid);
}

/// A discovery message that says nothing changes nothing.
pub proof fn law_empty_event_changes_nothing(
    local_ips: LocalIps,
    before: EventView,
    after: EventView,
    capacity: usize,
    now: u64,
    outcome: EventOutcome,
)
    requires
        is_taken_in(RtpsEvent::Empty, local_ips, before, after, capacity, now, outcome),
    ensures
        after.remote == before.remote,
        after.recent == before.recent,
        after.sessions == before.sessions,
        outcome.clear_nodes_of is None,
        !outcome.sync_filter,
        outcome.data is None,
        !outcome.refresh,
{
}

// Discovery.

/// After an announcement, the participants that have been seen from other hosts are those
/// that were, and the one that announced itself, if it did so from another host. None is
/// listed twice.
pub proof fn law_remote_participants(
    remote: Seq<TopicGid>,
    participant: Option<TopicGid>,
    is_local: bool,
    gid: TopicGid,
)
    ensures
        remote_after(remote, participant, is_local).contains(gid) <==> remote.contains(gid) || (
        participant == Some(gid) && !is_local),
        remote.no_duplicates() ==> remote_after(remote, participant, is_local).no_duplicates(),
{
    match participant {
        None => {},
        Some(other) => {
            let all = remote.push(other);
            assert(all[remote.len() as int] == other);
            if remote.contains(gid) {
                let i = choose|i: int| 0 <= i < remote.len() && remote[i] == gid;
                assert(all[i] == gid);
            }
            if all.contains(gid) {
                let i = choose|i: int| 0 <= i < all.len() && all[i] == gid;
                if i < remote.len() {
                    assert(remote[i] == gid);
                }
            }
            if remote.no_duplicates() && !remote.contains(other) {
                assert forall|i: int, j: int| 0 <= i < all.len() && 0 <= j < all.len() && i
                    != j implies all[i] != all[j] by {
                    if i < remote.len() && j < remote.len() {
                        assert(remote[i] != remote[j]);
                    }
                }
            }
        },
    }
}

/// The nodes of a participant are cleared if and only if that participant is gone.
pub proof fn law_nodes_cleared_with_participant(change: DiscoveryChange, gid: TopicGid)
    ensures
        change_actions(change).0 == Some(gid) <==> change == DiscoveryChange::RemovedParticipant(
            gid,
        ),
        change_actions(change).0 is None <==> !(change is RemovedParticipant),
        change_actions(change).1 <==> change is Inserted || change is RemovedEndpoint
            || change is RemovedParticipant,
        change_actions(change).2 <==> !(change is Noop),
{
}

// Addresses.

/// The four parts of an IPv4 address.
pub open spec fn is_dotted(ip: IpAddr, parts: [u8; 4]) -> bool {
    ip.bytes[0] == parts[0] && ip.bytes[1] == parts[1] && ip.bytes[2] == parts[2] && ip.bytes[3]
        == parts[3]
}

/// An IPv4 address is this host's own if its four parts are those of one of the host's IPv4
/// addresses, and an IPv6 address if all its bytes are those of one of the host's IPv6
/// addresses. Nothing else is.
pub proof fn law_own_addresses(ips: LocalIps, ip: IpAddr)
    ensures
        ip.family == 4 ==> (local_ip(ips, ip) <==> exists|i: int|
            0 <= i < ips.v4@.len() && is_dotted(ip, #[trigger] ips.v4@[i])),
        ip.family == 6 ==> (local_ip(ips, ip) <==> exists|i: int|
            0 <= i < ips.v6@.len() && #[trigger] ips.v6@[i] == ip.bytes),
        ip.family != 4 && ip.family != 6 ==> !local_ip(ips, ip),
{
    if ip.family == 4 {
        if exists|i: int| 0 <= i < ips.v4@.len() && is_dotted(ip, #[trigger] ips.v4@[i]) {
            let i = choose|i: int| 0 <= i < ips.v4@.len() && is_dotted(ip, #[trigger] ips.v4@[i]);
            assert(crate::runtime::samples::is_v4(ip, ips.v4@[i]));
        }
        if local_ip(ips, ip) {
            let i = choose|i: int|
                0 <= i < ips.v4@.len() && crate::runtime::samples::is_v4(
                    ip,
                    #[trigger] ips.v4@[i],
                );
            assert(is_dotted(ip, ips.v4@[i]));
        }
    }
}

/// An IPv4 address that is read as a number has the number's four bytes, most significant
/// first, and nothing behind them.
pub proof fn law_address_of_number(a: u8, b: u8, c: u8, d: u8)
    ensures
        ({
            let ip = v4_address((a * 0x100_0000 + b * 0x1_0000 + c * 0x100 + d) as u32);
            &&& ip.family == 4
            &&& is_dotted(ip, [a, b, c, d])
            &&& forall|i: int| 4 <= i < 16 ==> #[trigger] ip.bytes[i] == 0
        }),
{
    let number = (a * 0x100_0000 + b * 0x1_0000 + c * 0x100 + d) as u32;
    assert(number == a * 0x100_0000 + b * 0x1_0000 + c * 0x100 + d);
    vstd::arithmetic::div_mod::lemma_fundamental_div_mod_converse(
        number as int,
        0x100_0000,
        a as int,
        b * 0x1_0000 + c * 0x100 + d,
    );
    vstd::arithmetic::div_mod::lemma_fundamental_div_mod_converse(
        number as int,
        0x1_0000,
        a * 0x100 + b,
        c * 0x100 + d,
    );
    vstd::arithmetic::div_mod::lemma_fundamental_div_mod_converse(
        number as int,
        0x100,
        a * 0x1_0000 + b * 0x100 + c,
        d as int,
    );
    vstd::arithmetic::div_mod::lemma_fundamental_div_mod_converse(
        a * 0x100 + b,
        0x100,
        a as int,
        b as int,
    );
    vstd::arithmetic::div_mod::lemma_fundamental_div_mod_converse(
        a * 0x1_0000 + b * 0x100 + c,
        0x100,
        a * 0x100 + b,
        c as int,
    );
}

// Interfaces and failures.

/// An interface is external if it is not the loopback, its entry leads to something that is
/// not virtual, and its state is not known to be down or missing.
pub proof fn law_external_interfaces(facts: InterfaceFacts, before: Seq<char>, behind: Seq<char>)
    ensures
        external_interface(facts) <==> {
            &&& facts.name@ != "lo"@
            &&& facts.canonical_path is Some
            &&& !contains_text(facts.canonical_path->0@, "/virtual/"@)
            &&& facts.operstate is None || (facts.operstate->0@ != "down"@
                && facts.operstate->0@ != "notpresent"@)
        },
        facts.canonical_path is Some && facts.canonical_path->0@ == before + "/virtual/"@ + behind
            ==> !external_interface(facts),
{
    crate::text_laws::law_part_stands_in_text(before, "/virtual/"@, behind, before);
}

/// The external interfaces of a list are those of its parts, in order, and one interface
/// stands for its own name or for nothing.
pub proof fn law_external_names_in_order(
    first: Seq<InterfaceFacts>,
    second: Seq<InterfaceFacts>,
    facts: InterfaceFacts,
)
    ensures
        external_names(first + second) == external_names(first) + external_names(second),
        external_names(seq![facts]) == (if external_interface(facts) {
            seq![facts.name@]
        } else {
            seq![]
        }),
    decreases second.len(),
{
    reveal_with_fuel(external_names, 2);
    assert(seq![facts].drop_last() =~= seq![]);
    if second.len() == 0 {
        assert(first + second =~= first);
        assert(external_names(first) + external_names(second) =~= external_names(first));
    } else {
        law_external_names_in_order(first, second.drop_last(), facts);
        assert((first + second).drop_last() =~= first + second.drop_last());
        assert(external_names(first + second) =~= external_names(first) + external_names(second));
    }
}

/// A cause tells of an interrupted system call by its kind or by its text, and in no other
/// way.
pub proof fn law_interrupted_calls(cause: FailureCause, before: Seq<char>, behind: Seq<char>)
    ensures
        cause.interrupted ==> says_interrupted(cause),
        cause.text@ == before + "Interrupted system call"@ + behind ==> says_interrupted(cause),
        cause.text@ == before + "os error 4"@ + behind ==> says_interrupted(cause),
        says_interrupted(cause) && !cause.interrupted ==> exists|a: Seq<char>, b: Seq<char>|
            cause.text@ == #[trigger] (a + "Interrupted system call"@ + b) || cause.text@ == a
                + "os error 4"@ + b,
{
    let text = cause.text@;
    crate::text_laws::law_part_stands_in_text(before, "Interrupted system call"@, behind, text);
    crate::text_laws::law_part_stands_in_text(before, "os error 4"@, behind, text);
    if says_interrupted(cause) && !cause.interrupted && !contains_text(
        text,
        "Interrupted system call"@,
    ) {
        let (a, b) = choose|a: Seq<char>, b: Seq<char>| text == #[trigger] (a + "os error 4"@ + b);
        let other = a + "Interrupted system call"@ + b;
        assert(text == a + "os error 4"@ + b);
    }
}

// What is let through.

/// A topic is wanted if all topics are recorded, or if it is one of those that are recorded
/// or watched.
pub open spec fn is_wanted(sessions: SessionsView, topic: Seq<char>) -> bool {
    ||| sessions.recording is Some && sessions.recording->0.topics.len() == 0
    ||| sessions.recording is Some && sessions.recording->0.topics.contains(topic)
    ||| sessions.bw is Some && sessions.bw->0.topic_name == topic
    ||| sessions.hz is Some && sessions.hz->0.topic_name == topic
    ||| sessions.echo is Some && sessions.echo->0.topic_name == topic
    ||| sessions.delay is Some && sessions.delay->0.topic_name == topic
}

/// The kernel filter lets every topic through if all are recorded, those that are wanted if
/// any is, each once, and none if none is.
pub proof fn law_filter_lets_wanted_topics_through(
    filter: TopicFilter,
    sessions: SessionsView,
    topic: Seq<char>,
)
    requires
        is_wanted_filter(filter, sessions),
    ensures
        filter is All <==> sessions.recording is Some && sessions.recording->0.topics.len() == 0,
        filter is Nothing ==> !is_wanted(sessions, topic),
        filter matches TopicFilter::Selected(topics) ==> {
            &&& topics@.len() > 0
            &&& texts(topics@).contains(topic) <==> is_wanted(sessions, topic)
            &&& texts(topics@).no_duplicates()
        },
{
    let set = crate::runtime::filter::watched(sessions);
    match filter {
        TopicFilter::Selected(topics) => {
            let list = texts(topics@);
            assert(list.to_set().contains(topic) <==> list.contains(topic));
            if topics@.len() == 0 {
                assert(list.to_set() =~= Set::<Seq<char>>::empty());
            }
            assert forall|i: int, j: int| 0 <= i < list.len() && 0 <= j < list.len() && i
                != j implies list[i] != list[j] by {
                <String as crate::sorted::SortKey>::irreflexive(list[i]);
                if i < j {
                    assert(crate::sorted::text_before(list[i], list[j]));
                } else {
                    assert(crate::sorted::text_before(list[j], list[i]));
                }
            }
        },
        TopicFilter::Nothing => {
            assert(!set.contains(topic));
        },
        TopicFilter::All => {},
    }
}

/// A topic needs a helper if it is wanted and has a writer whose samples can only be had from
/// shared memory.
pub proof fn law_helpers_for_wanted_topics(
    sessions: SessionsView,
    publications: Seq<ShadowCandidate>,
    topic: Seq<char>,
)
    ensures
        shadow_wanted(sessions, publications).contains(topic) <==> is_wanted(sessions, topic)
            && exists|i: int|
            0 <= i < publications.len() && (#[trigger] publications[i]).needs_shadow && text_opt(
                publications[i].topic,
            ) == Some(topic),
{
    assert(has_shm_publisher(publications, topic) <==> exists|i: int|
        0 <= i < publications.len() && (#[trigger] publications[i]).needs_shadow && text_opt(
            publications[i].topic,
        ) == Some(topic));
}

} // verus!
