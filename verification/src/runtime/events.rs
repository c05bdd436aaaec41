//! What the probe does with what it captures.

use crate::base64_text::{base64_encoded, encodable};
use crate::by_name::{lemma_sorts_texts, sort_by_name, sorts_texts};
use crate::capture::capture::pushed;
use crate::command::names::{internal_name, is_internal_name};
use crate::command::protocol::EchoStatusView;
use crate::common::{IpAddr, TopicGid};
use crate::discovery::ros_graph::{
    is_discovery_topic, is_ros_discovery_info, parse_participant_entities_info, parsed_entities, EntitiesError,
    ParticipantEntitiesInfo,
};
use crate::discovery::tables::has_gid;
use crate::payload::{payload_bytes, payload_slice};
use crate::runtime::bag::{record_topic, records, TopicReach};
use crate::runtime::delay::{delay_observe_message, delay_taken};
use crate::runtime::echo::{
    echo_observe_message, echo_reply_view, echo_taken, sequence_value, EchoReply, EchoView,
};
use crate::runtime::observers::{
    bw_observe_message, bw_observed, hz_observe_message, hz_observed, DataMessage, TopicMetadata,
};
use crate::runtime::samples::{local_ip, LocalIps, RecentSampleCache, SampleIdentity};
use crate::runtime::sessions::{Sessions, SessionsView};
use crate::text::{contains_text, has_text, same_text, text_opt, texts};
use vstd::prelude::*;
use vstd::string::*;

verus! {

// Messages.

/// What came of a message.
pub struct DataOutcome {
    /// The nodes that it lists, if it is on the topic on which nodes are listed.
    pub nodes: Option<Result<ParticipantEntitiesInfo, EntitiesError>>,
    /// Whether the recorder is to have it.
    pub record: bool,
    /// The answer to a client that waited for it.
    pub reply: Option<EchoReply>,
}

/// The topic of a message: that of its metadata, or the one that its writer announced.
pub open spec fn message_topic(
    metadata: Option<TopicMetadata>,
    published_topic: Option<Seq<char>>,
) -> Option<Seq<char>> {
    match metadata {
        Some(metadata) => Some(metadata.topic_name@),
        None => published_topic,
    }
}

/// The topic is the one on which participants list their nodes.
pub open spec fn lists_nodes_topic(topic: Option<Seq<char>>) -> bool {
    topic matches Some(name) && is_discovery_topic(name)
}

/// `nodes` is what the message lists.
pub open spec fn nodes_read_from(
    nodes: Option<Result<ParticipantEntitiesInfo, EntitiesError>>,
    topic: Option<Seq<char>>,
    payload: Seq<u8>,
) -> bool {
    if lists_nodes_topic(topic) {
        match (nodes, parsed_entities(payload)) {
            (Some(Ok(info)), Ok(wanted)) => info@ == wanted,
            (Some(Err(error)), Err(wanted)) => error == wanted,
            _ => false,
        }
    } else {
        nodes is None
    }
}

/// What the sessions become with a message on a known topic, and who is answered what.
/// Internal topics are not watched.
pub open spec fn observed(
    sessions: SessionsView,
    message: DataMessage,
    metadata: TopicMetadata,
    now: u64,
) -> (SessionsView, Option<(u64, EchoStatusView)>) {
    let topic = metadata.topic_name@;
    let ros_type = text_opt(metadata.ros_type);
    let payload = payload_bytes(message.payload);
    if internal_name(topic) {
        (sessions, None)
    } else {
        let (echo, reply) = match sessions.echo {
            None => (None::<EchoView>, None),
            Some(view) => {
                let (after, reply) = echo_taken(
                    view,
                    topic,
                    ros_type,
                    message.writer_gid,
                    sequence_value(message.sequence_number) as i64,
                    base64_encoded(payload),
                );
                (Some(after), reply)
            },
        };
        (
            SessionsView {
                recording: sessions.recording,
                bw: match sessions.bw {
                    None => None,
                    Some(view) => Some(bw_observed(view, topic, payload.len() as u64, now)),
                },
                delay: match sessions.delay {
                    None => None,
                    Some(view) => Some(
                        delay_taken(
                            view,
                            topic,
                            ros_type,
                            message.socket_timestamp,
                            payload,
                            base64_encoded(payload),
                        ),
                    ),
                },
                echo,
                hz: match sessions.hz {
                    None => None,
                    Some(view) => Some(hz_observed(view, topic, now)),
                },
            },
            reply,
        )
    }
}

/// `outcome` is what comes of a message, and `after` what the sessions become. Messages
/// on unknown topics touch no session.
pub open spec fn is_data_outcome(
    outcome: DataOutcome,
    message: DataMessage,
    metadata: Option<TopicMetadata>,
    published_topic: Option<Seq<char>>,
    reach: Option<TopicReach>,
    before: SessionsView,
    after: SessionsView,
    now: u64,
) -> bool {
    &&& nodes_read_from(
        outcome.nodes,
        message_topic(metadata, published_topic),
        payload_bytes(message.payload),
    )
    &&& match metadata {
        None => after == before && !outcome.record && outcome.reply is None,
        Some(metadata) => {
            let (sessions, reply) = observed(before, message, metadata, now);
            &&& after == sessions
            &&& echo_reply_view(outcome.reply) == reply
            &&& outcome.record == (before.recording matches Some(recording) && records(
                recording,
                metadata.topic_name@,
                reach,
            ))
        },
    }
}

/// Hands a message to everything that waits for one.
pub fn handle_data_message(
    message: &DataMessage,
    metadata: &Option<TopicMetadata>,
    published_topic: &Option<String>,
    reach: Option<TopicReach>,
    sessions: &mut Sessions,
    now: u64,
) -> (r: DataOutcome)
    requires
        old(sessions).wf(),
        encodable(payload_bytes(message.payload).len()),
    ensures
        final(sessions).wf(),
        is_data_outcome(
            r,
            *message,
            *metadata,
            text_opt(*published_topic),
            reach,
            old(sessions)@,
            final(sessions)@,
            now,
        ),
{
    let lists = match metadata {
        Some(metadata) => is_ros_discovery_info(metadata.topic_name.as_str()),
        None => match published_topic {
            Some(topic) => is_ros_discovery_info(topic.as_str()),
            None => false,
        },
    };
    let nodes = if lists {
        Some(parse_participant_entities_info(payload_slice(&message.payload)))
    } else {
        None
    };
    match metadata {
        None => DataOutcome { nodes, record: false, reply: None },
        Some(metadata) => {
            let record = record_topic(&sessions.recording, metadata.topic_name.as_str(), reach);
            if is_internal_name(metadata.topic_name.as_str()) {
                return DataOutcome { nodes, record, reply: None };
            }
            bw_observe_message(&mut sessions.bw, message, metadata, now);
            delay_observe_message(&mut sessions.delay, message, metadata);
            let reply = echo_observe_message(&mut sessions.echo, message, metadata);
            hz_observe_message(&mut sessions.hz, metadata, now);
            DataOutcome { nodes, record, reply }
        },
    }
}

// Events.

/// What a discovery sample changed in the tables.
#[derive(Clone, Copy, Debug, Eq, PartialEq)]
pub enum DiscoveryChange {
    Noop,
    Updated,
    Inserted,
    RemovedEndpoint,
    RemovedParticipant(TopicGid),
}

/// Something that was captured.
pub enum RtpsEvent {
    /// A discovery message that says nothing.
    Empty,
    /// A discovery sample. If it announces a participant, that is named.
    Discovery { participant: Option<TopicGid>, src_ip: IpAddr, change: DiscoveryChange },
    /// A message, with what is known of its topic.
    Message {
        message: DataMessage,
        metadata: Option<TopicMetadata>,
        published_topic: Option<String>,
        reach: Option<TopicReach>,
    },
}

/// What is to be done after an event.
pub struct EventOutcome {
    /// The participant whose nodes are gone.
    pub clear_nodes_of: Option<TopicGid>,
    /// Whether the kernel filter is to be brought up to date.
    pub sync_filter: bool,
    /// What came of the message, unless it was known.
    pub data: Option<DataOutcome>,
    /// Whether the ROS graph has changed.
    pub refresh: bool,
}

/// The participants that have been seen from other hosts, after one more announcement.
pub open spec fn remote_after(
    remote: Seq<TopicGid>,
    participant: Option<TopicGid>,
    is_local: bool,
) -> Seq<TopicGid> {
    match participant {
        None => remote,
        Some(gid) => if is_local || remote.contains(gid) {
            remote
        } else {
            remote.push(gid)
        },
    }
}

/// Notes where a participant announced itself from.
pub fn note_participant(
    participant: Option<TopicGid>,
    src_ip: &IpAddr,
    local_ips: &LocalIps,
    remote_participants: &mut Vec<TopicGid>,
)
    ensures
        final(remote_participants)@ == remote_after(
            old(remote_participants)@,
            participant,
            local_ip(*local_ips, *src_ip),
        ),
{
    match participant {
        None => {},
        Some(gid) => if !local_ips.contains(src_ip) && !has_gid(remote_participants, &gid) {
            remote_participants.push(gid);
        },
    }
}

/// The identity of a message.
pub open spec fn identity_of(message: DataMessage) -> SampleIdentity {
    SampleIdentity {
        writer_gid: message.writer_gid,
        sequence_number: message.sequence_number,
    }
}

/// What is to be done after a change of the tables.
pub open spec fn change_actions(change: DiscoveryChange) -> (Option<TopicGid>, bool, bool) {
    match change {
        DiscoveryChange::Noop => (None, false, false),
        DiscoveryChange::Updated => (None, false, true),
        DiscoveryChange::Inserted => (None, true, true),
        DiscoveryChange::RemovedEndpoint => (None, true, true),
        DiscoveryChange::RemovedParticipant(gid) => (Some(gid), true, true),
    }
}

/// What an event is taken in with: the participants that have been seen from other hosts,
/// the samples that are remembered, and what is watched or recorded.
pub struct EventView {
    pub remote: Seq<TopicGid>,
    pub recent: Seq<SampleIdentity>,
    pub sessions: SessionsView,
}

/// `outcome` is what is to be done after an event, and `after` what it leaves. The ROS graph
/// has changed if the tables have, or if a message listed nodes. Messages that are known
/// already are passed over.
pub open spec fn is_taken_in(
    event: RtpsEvent,
    local_ips: LocalIps,
    before: EventView,
    after: EventView,
    capacity: usize,
    now: u64,
    outcome: EventOutcome,
) -> bool {
    match event {
        RtpsEvent::Empty => {
            &&& after.remote == before.remote
            &&& after.recent == before.recent
            &&& after.sessions == before.sessions
            &&& outcome.clear_nodes_of is None && !outcome.sync_filter
            &&& outcome.data is None && !outcome.refresh
        },
        RtpsEvent::Discovery { participant, src_ip, change } => {
            &&& after.remote == remote_after(
                before.remote,
                participant,
                local_ip(local_ips, src_ip),
            )
            &&& after.recent == before.recent
            &&& after.sessions == before.sessions
            &&& (outcome.clear_nodes_of, outcome.sync_filter, outcome.refresh) == change_actions(
                change,
            )
            &&& outcome.data is None
        },
        RtpsEvent::Message { message, metadata, published_topic, reach } => {
            let known = before.recent.contains(identity_of(message));
            &&& after.remote == before.remote
            &&& outcome.clear_nodes_of is None && !outcome.sync_filter
            &&& if known {
                &&& after.recent == before.recent
                &&& after.sessions == before.sessions
                &&& outcome.data is None && !outcome.refresh
            } else {
                &&& after.recent == pushed(before.recent, identity_of(message), capacity)
                &&& outcome.data matches Some(data)
                &&& is_data_outcome(
                    data,
                    message,
                    metadata,
                    text_opt(published_topic),
                    reach,
                    before.sessions,
                    after.sessions,
                    now,
                )
                &&& outcome.refresh == (data.nodes matches Some(Ok(_)))
            }
        },
    }
}

/// Takes an event in. The ROS graph has changed if the tables have, or if a message
/// listed nodes. Messages that are known already are passed over.
pub fn handle_rtps_event(
    event: RtpsEvent,
    local_ips: &LocalIps,
    remote_participants: &mut Vec<TopicGid>,
    recent_samples: &mut RecentSampleCache,
    sessions: &mut Sessions,
    now: u64,
) -> (r: EventOutcome)
    requires
        old(recent_samples).wf(),
        old(sessions).wf(),
        event matches RtpsEvent::Message { message, .. } ==> encodable(
            payload_bytes(message.payload).len(),
        ),
    ensures
        final(recent_samples).wf(),
        final(recent_samples).capacity() == old(recent_samples).capacity(),
        final(sessions).wf(),
        is_taken_in(
            event,
            *local_ips,
            (EventView {
                remote: old(remote_participants)@,
                recent: old(recent_samples)@,
                sessions: old(sessions)@,
            }),
            (EventView {
                remote: final(remote_participants)@,
                recent: final(recent_samples)@,
                sessions: final(sessions)@,
            }),
            old(recent_samples).capacity(),
            now,
            r,
        ),
{
    match event {
        RtpsEvent::Empty => EventOutcome {
            clear_nodes_of: None,
            sync_filter: false,
            data: None,
            refresh: false,
        },
        RtpsEvent::Discovery { participant, src_ip, change } => {
            note_participant(participant, &src_ip, local_ips, remote_participants);
            let (clear_nodes_of, sync_filter, refresh) = match change {
                DiscoveryChange::Noop => (None, false, false),
                DiscoveryChange::Updated => (None, false, true),
                DiscoveryChange::Inserted => (None, true, true),
                DiscoveryChange::RemovedEndpoint => (None, true, true),
                DiscoveryChange::RemovedParticipant(gid) => (Some(gid), true, true),
            };
            EventOutcome { clear_nodes_of, sync_filter, data: None, refresh }
        },
        RtpsEvent::Message { message, metadata, published_topic, reach } => {
            let identity = SampleIdentity {
                writer_gid: message.writer_gid,
                sequence_number: message.sequence_number,
            };
            if !recent_samples.insert(identity) {
                return EventOutcome {
                    clear_nodes_of: None,
                    sync_filter: false,
                    data: None,
                    refresh: false,
                };
            }
            let outcome = handle_data_message(
                &message,
                &metadata,
                &published_topic,
                reach,
                sessions,
                now,
            );
            let refresh = match &outcome.nodes {
                Some(Ok(_)) => true,
                _ => false,
            };
            EventOutcome {
                clear_nodes_of: None,
                sync_filter: false,
                data: Some(outcome),
                refresh,
            }
        },
    }
}

/// How much a sweep has removed from the tables.
pub struct ExpireStats {
    pub participants_removed: usize,
    pub publications_removed: usize,
    pub subscriptions_removed: usize,
}

/// Whether a sweep has removed anything, so that everything built on the tables is to
/// be brought up to date.
pub fn sweep_changed(stats: &ExpireStats) -> (r: bool)
    ensures
        r == (stats.participants_removed > 0 || stats.publications_removed > 0
            || stats.subscriptions_removed > 0),
{
    stats.participants_removed > 0 || stats.publications_removed > 0 || stats.subscriptions_removed
        > 0
}

// Interfaces.

/// What the system says of a network interface.
pub struct InterfaceFacts {
    pub name: String,
    /// Where its entry leads to, if that can be told.
    pub canonical_path: Option<String>,
    /// Its state, without surrounding blanks, if that can be told.
    pub operstate: Option<String>,
}

/// An interface is external if it is not the loopback, is a device, and is not down.
pub open spec fn external_interface(facts: InterfaceFacts) -> bool {
    &&& facts.name@ != "lo"@
    &&& facts.canonical_path matches Some(path)
    &&& !contains_text(path@, "/virtual/"@)
    &&& text_opt(facts.operstate) != Some("down"@)
    &&& text_opt(facts.operstate) != Some("notpresent"@)
}

/// Whether an interface is external.
pub fn is_external_interface(facts: &InterfaceFacts) -> (r: bool)
    ensures
        r == external_interface(*facts),
{
    if same_text(facts.name.as_str(), "lo") {
        return false;
    }
    match &facts.canonical_path {
        None => return false,
        Some(path) => if has_text(path.as_str(), "/virtual/") {
            return false;
        },
    }
    match &facts.operstate {
        None => true,
        Some(state) => !same_text(state.as_str(), "down") && !same_text(
            state.as_str(),
            "notpresent",
        ),
    }
}

/// The names of the external interfaces, in the order of the list.
pub open spec fn external_names(list: Seq<InterfaceFacts>) -> Seq<Seq<char>>
    decreases list.len(),
{
    if list.len() == 0 {
        seq![]
    } else {
        let before = external_names(list.drop_last());
        if external_interface(list.last()) {
            before.push(list.last().name@)
        } else {
            before
        }
    }
}

/// Lists the interfaces to capture on: the loopback first, then the external ones in
/// the order of their names.
pub fn resolve_capture_interfaces(list: &Vec<InterfaceFacts>) -> (r: Vec<String>)
    ensures
        r@.len() > 0,
        r@[0]@ == "lo"@,
        sorts_texts(texts(r@).skip(1), external_names(list@)),
{
    let mut external: Vec<String> = Vec::new();
    let mut i: usize = 0;
    assert(texts(external@) =~= seq![]);
    while i < list.len()
        invariant
            i <= list.len(),
            texts(external@) == external_names(list@.take(i as int)),
        decreases list.len() - i,
    {
        assert(list@.take(i + 1).drop_last() =~= list@.take(i as int));
        let ghost before = texts(external@);
        if is_external_interface(&list[i]) {
            external.push(list[i].name.clone());
            assert(texts(external@) =~= before.push(list@[i as int].name@));
        }
        i += 1;
    }
    assert(list@.take(i as int) =~= list@);
    let ghost found = external@;
    let mut sorted = sort_by_name(external);
    let ghost tail = sorted@;
    proof {
        lemma_sorts_texts(tail, found);
    }
    let mut r: Vec<String> = Vec::new();
    r.push("lo".to_owned());
    r.append(&mut sorted);
    assert(texts(r@).skip(1) =~= texts(tail));
    r
}

/// What is known of one cause of a failure.
pub struct FailureCause {
    /// The system call was interrupted.
    pub interrupted: bool,
    pub text: String,
}

/// A cause says that a system call was interrupted.
pub open spec fn says_interrupted(cause: FailureCause) -> bool {
    cause.interrupted || contains_text(cause.text@, "Interrupted system call"@) || contains_text(
        cause.text@,
        "os error 4"@,
    )
}

/// Whether a failure goes back to an interrupted system call.
pub fn is_interrupted_syscall(causes: &Vec<FailureCause>) -> (r: bool)
    ensures
        r == exists|i: int| 0 <= i < causes@.len() && says_interrupted(#[trigger] causes@[i]),
{
    let mut i: usize = 0;
    while i < causes.len()
        invariant
            i <= causes.len(),
            forall|j: int| 0 <= j < i ==> !says_interrupted(#[trigger] causes@[j]),
        decreases causes.len() - i,
    {
        let cause = &causes[i];
        if cause.interrupted || has_text(cause.text.as_str(), "Interrupted system call")
            || has_text(cause.text.as_str(), "os error 4") {
            assert(says_interrupted(causes@[i as int]));
            return true;
        }
        i += 1;
    }
    false
}

// Laws.

/// An announcement that arrives twice, as it does on two interfaces, changes nothing the
/// second time.
pub proof fn law_repeated_announcement_changes_nothing(
    remote: Seq<TopicGid>,
    participant: Option<TopicGid>,
    is_local: bool,
)
    ensures
        remote_after(remote_after(remote, participant, is_local), participant, is_local)
            == remote_after(remote, participant, is_local),
{
    match participant {
        None => {},
        Some(gid) => {
            if !is_local && !remote.contains(gid) {
                assert(remote.push(gid)[remote.len() as int] == gid);
            }
        },
    }
}

/// A participant counts as seen from another host once it has announced itself from there,
/// and stays so, whatever is announced later.
pub proof fn law_remote_participant_stays(
    remote: Seq<TopicGid>,
    gid: TopicGid,
    later: Option<TopicGid>,
    is_local: bool,
)
    ensures
        remote_after(remote, Some(gid), false).contains(gid),
        remote.contains(gid) ==> remote_after(remote, later, is_local).contains(gid),
{
    if !remote.contains(gid) {
        assert(remote.push(gid)[remote.len() as int] == gid);
    } else {
        let at = choose|at: int| 0 <= at < remote.len() && remote[at] == gid;
        match later {
            None => {},
            Some(other) => {
                assert(remote.push(other)[at] == gid);
            },
        }
    }
}

/// The messages of internal topics change no session and answer no client.
pub proof fn law_internal_topics_not_watched(
    sessions: SessionsView,
    message: DataMessage,
    metadata: TopicMetadata,
    now: u64,
)
    requires
        internal_name(metadata.topic_name@),
    ensures
        observed(sessions, message, metadata, now) == (
            sessions,
            None::<(u64, EchoStatusView)>,
        ),
{
}

/// The kernel filter is brought up to date just where endpoints came or went; signs of life
/// leave it alone. Whatever changes the filter changes the ROS graph.
pub proof fn law_filter_follows_endpoints(change: DiscoveryChange)
    ensures
        change_actions(change).1 == (change is Inserted || change is RemovedEndpoint
            || change is RemovedParticipant),
        change_actions(change).2 == !(change is Noop),
{
}

} // verus!
