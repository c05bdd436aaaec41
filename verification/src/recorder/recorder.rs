//! The schemas, channels and sequence numbers of a recording.

use crate::common::{system_time_to_nanos, Timestamp, TimestampError};
use crate::recorder::schema::{normalize_schema_name, schema_name};
use crate::runtime::bag::CompressionConfig;
use crate::runtime::observers::TopicMetadata;
use crate::sorted::{text_before, SortKey, SortedTable};
use crate::text::text_opt;
use std::collections::HashMap;
use vstd::prelude::*;
use vstd::string::*;

verus! {

broadcast use vstd::std_specs::hash::group_hash_axioms;

/// What tells channels apart.
pub struct ChannelKey {
    pub topic: String,
    pub schema_name: String,
    pub qos_profile: String,
}

/// What a [`ChannelKey`] holds.
#[verifier::ext_equal]
pub struct ChannelShape {
    pub topic: Seq<char>,
    pub schema_name: Seq<char>,
    pub qos_profile: Seq<char>,
}

impl SortKey for ChannelKey {
    type Shape = ChannelShape;

    open spec fn shape(&self) -> ChannelShape {
        ChannelShape {
            topic: self.topic@,
            schema_name: self.schema_name@,
            qos_profile: self.qos_profile@,
        }
    }

    open spec fn before(a: ChannelShape, b: ChannelShape) -> bool {
        text_before(a.topic, b.topic) || (a.topic == b.topic && (text_before(
            a.schema_name,
            b.schema_name,
        ) || (a.schema_name == b.schema_name && text_before(a.qos_profile, b.qos_profile))))
    }

    proof fn irreflexive(a: ChannelShape) {
        String::irreflexive(a.topic);
        String::irreflexive(a.schema_name);
        String::irreflexive(a.qos_profile);
    }

    proof fn transitive(a: ChannelShape, b: ChannelShape, c: ChannelShape) {
        if text_before(a.topic, b.topic) && text_before(b.topic, c.topic) {
            String::transitive(a.topic, b.topic, c.topic);
        }
        if text_before(a.schema_name, b.schema_name) && text_before(b.schema_name, c.schema_name) {
            String::transitive(a.schema_name, b.schema_name, c.schema_name);
        }
        if text_before(a.qos_profile, b.qos_profile) && text_before(b.qos_profile, c.qos_profile) {
            String::transitive(a.qos_profile, b.qos_profile, c.qos_profile);
        }
    }

    proof fn total(a: ChannelShape, b: ChannelShape) {
        String::total(a.topic, b.topic);
        String::total(a.schema_name, b.schema_name);
        String::total(a.qos_profile, b.qos_profile);
    }

    fn comes_before(&self, other: &ChannelKey) -> (r: bool) {
        proof {
            String::total(self.topic@, other.topic@);
            String::total(self.schema_name@, other.schema_name@);
            String::irreflexive(self.topic@);
            String::irreflexive(self.schema_name@);
        }
        if self.topic.comes_before(&other.topic) {
            return true;
        }
        if other.topic.comes_before(&self.topic) {
            return false;
        }
        if self.schema_name.comes_before(&other.schema_name) {
            return true;
        }
        if other.schema_name.comes_before(&self.schema_name) {
            return false;
        }
        self.qos_profile.comes_before(&other.qos_profile)
    }
}

/// A recording: where it is kept, how, and what has been written to it so far.
pub struct Recorder {
    path: String,
    compression: CompressionConfig,
    schema_ids: SortedTable<String, u16>,
    channel_ids: SortedTable<ChannelKey, u16>,
    next_sequence: HashMap<u16, u32>,
}

/// What a [`Recorder`] holds.
#[verifier::ext_equal]
pub struct BookView {
    pub path: Seq<char>,
    pub compression: CompressionConfig,
    pub schema_ids: Map<Seq<char>, u16>,
    pub channel_ids: Map<ChannelShape, u16>,
    pub next_sequence: Map<u16, u32>,
}

impl View for Recorder {
    type V = BookView;

    closed spec fn view(&self) -> BookView {
        BookView {
            path: self.path@,
            compression: self.compression,
            schema_ids: self.schema_ids@,
            channel_ids: self.channel_ids@,
            next_sequence: self.next_sequence@,
        }
    }
}

/// What is to be done next to write a message.
#[derive(Debug)]
pub enum WriteStep {
    /// Add the schema of this name.
    AddSchema { schema_name: String },
    /// Add a channel with this schema, message encoding and entry of metadata.
    AddChannel {
        schema_id: u16,
        schema_name: String,
        message_encoding: String,
        metadata_key: String,
        metadata_value: String,
    },
    /// Write to this channel.
    Write { channel_id: u16 },
}

/// What is to be done next to write a message.
pub enum StepView {
    AddSchema { schema_name: Seq<char> },
    AddChannel {
        schema_id: u16,
        schema_name: Seq<char>,
        message_encoding: Seq<char>,
        metadata_key: Seq<char>,
        metadata_value: Seq<char>,
    },
    Write { channel_id: u16 },
}

impl View for WriteStep {
    type V = StepView;

    open spec fn view(&self) -> StepView {
        match self {
            WriteStep::AddSchema { schema_name } => StepView::AddSchema {
                schema_name: schema_name@,
            },
            WriteStep::AddChannel {
                schema_id,
                schema_name,
                message_encoding,
                metadata_key,
                metadata_value,
            } => StepView::AddChannel {
                schema_id: *schema_id,
                schema_name: schema_name@,
                message_encoding: message_encoding@,
                metadata_key: metadata_key@,
                metadata_value: metadata_value@,
            },
            WriteStep::Write { channel_id } => StepView::Write { channel_id: *channel_id },
        }
    }
}

/// A channel takes messages in CDR, and its metadata tell the quality of service.
pub open spec fn channel_step(
    schema_id: u16,
    schema_name: Seq<char>,
    qos_profile: Seq<char>,
) -> StepView {
    StepView::AddChannel {
        schema_id,
        schema_name,
        message_encoding: "cdr"@,
        metadata_key: "offered_qos_profiles"@,
        metadata_value: qos_profile,
    }
}

/// A message needs its schema first, then its channel.
pub open spec fn write_step(
    book: BookView,
    topic: Seq<char>,
    schema: Seq<char>,
    qos_profile: Seq<char>,
) -> StepView {
    let name = schema_name(schema);
    let key = ChannelShape { topic, schema_name: name, qos_profile };
    if !book.schema_ids.contains_key(name) {
        StepView::AddSchema { schema_name: name }
    } else if !book.channel_ids.contains_key(key) {
        channel_step(book.schema_ids[name], name, qos_profile)
    } else {
        StepView::Write { channel_id: book.channel_ids[key] }
    }
}

/// The next sequence number of a channel.
pub open spec fn sequence_of(book: BookView, channel_id: u16) -> u32 {
    if book.next_sequence.contains_key(channel_id) {
        book.next_sequence[channel_id]
    } else {
        0
    }
}

/// A sequence number after one more message. The last number stays.
pub open spec fn next_number(sequence: u32) -> u32 {
    if sequence == u32::MAX {
        sequence
    } else {
        (sequence + 1) as u32
    }
}

/// The book after a message on a channel.
pub open spec fn book_written(book: BookView, channel_id: u16) -> BookView {
    BookView {
        next_sequence: book.next_sequence.insert(
            channel_id,
            next_number(sequence_of(book, channel_id)),
        ),
        ..book
    }
}

/// What is written before a payload.
#[derive(Clone, Copy, Debug, Eq, PartialEq)]
pub struct RecordHeader {
    pub channel_id: u16,
    pub sequence: u32,
    pub log_time: u64,
    pub publish_time: u64,
}

/// What is written before a payload that was captured at the given time: the channel, the
/// next number on it, and the time.
pub open spec fn header_of(book: BookView, channel_id: u16, captured_at: Timestamp) -> Result<
    RecordHeader,
    TimestampError,
> {
    if captured_at.unix_nanos < 0 {
        Err(TimestampError::BeforeEpoch)
    } else if captured_at.unix_nanos > u64::MAX {
        Err(TimestampError::TooLarge)
    } else {
        Ok(
            RecordHeader {
                channel_id,
                sequence: sequence_of(book, channel_id),
                log_time: captured_at.unix_nanos as u64,
                publish_time: captured_at.unix_nanos as u64,
            },
        )
    }
}

impl Recorder {
    /// Schemas and channels stand in order.
    pub closed spec fn wf(&self) -> bool {
        self.schema_ids.wf() && self.channel_ids.wf()
    }

    /// A recording to which nothing has been written.
    pub fn create(path: String, compression: CompressionConfig) -> (r: Recorder)
        ensures
            r.wf(),
            r@ == (BookView {
                path: path@,
                compression,
                schema_ids: Map::empty(),
                channel_ids: Map::empty(),
                next_sequence: Map::empty(),
            }),
    {
        Recorder {
            path,
            compression,
            schema_ids: SortedTable::new(),
            channel_ids: SortedTable::new(),
            next_sequence: HashMap::new(),
        }
    }

    /// How the recording is compressed.
    pub fn compression(&self) -> (r: CompressionConfig)
        ensures
            r == self@.compression,
    {
        self.compression
    }

    /// Where the recording goes.
    pub fn output(&self) -> (r: String)
        ensures
            r@ == self@.path,
    {
        self.path.clone()
    }

    /// Gives the path of a recording that is done.
    pub fn finish(self) -> (r: String)
        ensures
            r@ == self@.path,
    {
        self.path
    }

    /// Tells what is to be done next to write a message of a topic, whose type may not
    /// be known.
    pub fn write_rtps_data_message(&self, metadata: &TopicMetadata) -> (r: WriteStep)
        requires
            self.wf(),
        ensures
            r@ == write_step(
                self@,
                metadata.topic_name@,
                schema_or_unknown(text_opt(metadata.ros_type)),
                ""@,
            ),
    {
        let schema = match &metadata.ros_type {
            Some(ros_type) => ros_type.as_str(),
            None => "unknown/Unknown",
        };
        self.write_message(metadata.topic_name.as_str(), schema, "")
    }

    /// Tells what is to be done next to write a message.
    pub fn write_message(&self, topic_name: &str, schema: &str, qos_profile: &str) -> (r: WriteStep)
        requires
            self.wf(),
        ensures
            r@ == write_step(self@, topic_name@, schema@, qos_profile@),
    {
        let name = normalize_schema_name(schema);
        assert(name.shape() == schema_name(schema@));
        let schema_id: u16 = match self.schema_ids.get(&name) {
            None => return WriteStep::AddSchema { schema_name: name },
            Some(schema_id) => *schema_id,
        };
        let key = ChannelKey {
            topic: topic_name.to_owned(),
            schema_name: name,
            qos_profile: qos_profile.to_owned(),
        };
        match self.channel_ids.get(&key) {
            None => WriteStep::AddChannel {
                schema_id,
                schema_name: key.schema_name,
                message_encoding: "cdr".to_owned(),
                metadata_key: "offered_qos_profiles".to_owned(),
                metadata_value: key.qos_profile,
            },
            Some(channel_id) => WriteStep::Write { channel_id: *channel_id },
        }
    }

    /// Notes the number of a schema that was added.
    pub fn schema_added(&mut self, schema_name: String, schema_id: u16)
        requires
            old(self).wf(),
        ensures
            final(self).wf(),
            final(self)@ == (BookView {
                schema_ids: old(self)@.schema_ids.insert(schema_name@, schema_id),
                ..old(self)@
            }),
    {
        self.schema_ids.put(schema_name, schema_id);
    }

    /// Notes the number of a channel that was added.
    pub fn channel_added(
        &mut self,
        topic_name: &str,
        schema_name: String,
        qos_profile: &str,
        channel_id: u16,
    )
        requires
            old(self).wf(),
        ensures
            final(self).wf(),
            final(self)@ == (BookView {
                channel_ids: old(self)@.channel_ids.insert(
                    ChannelShape {
                        topic: topic_name@,
                        schema_name: schema_name@,
                        qos_profile: qos_profile@,
                    },
                    channel_id,
                ),
                ..old(self)@
            }),
    {
        let key = ChannelKey {
            topic: topic_name.to_owned(),
            schema_name,
            qos_profile: qos_profile.to_owned(),
        };
        self.channel_ids.put(key, channel_id);
    }

    /// What is written before a payload that was captured at the given time.
    pub fn header(&self, channel_id: u16, captured_at: Timestamp) -> (r: Result<
        RecordHeader,
        TimestampError,
    >)
        ensures
            r == header_of(self@, channel_id, captured_at),
    {
        let sequence: u32 = match self.next_sequence.get(&channel_id) {
            None => 0,
            Some(sequence) => *sequence,
        };
        match system_time_to_nanos(captured_at) {
            Err(error) => Err(error),
            Ok(nanos) => Ok(
                RecordHeader { channel_id, sequence, log_time: nanos, publish_time: nanos },
            ),
        }
    }

    /// Notes that a message was written to a channel.
    pub fn message_written(&mut self, channel_id: u16)
        requires
            old(self).wf(),
        ensures
            final(self).wf(),
            final(self)@ == book_written(old(self)@, channel_id),
    {
        let sequence: u32 = match self.next_sequence.get(&channel_id) {
            None => 0,
            Some(sequence) => *sequence,
        };
        self.next_sequence.insert(channel_id, sequence.saturating_add(1));
        assert(self@.next_sequence =~= book_written(old(self)@, channel_id).next_sequence);
    }
}

/// The schema name under which a message without a type is written.
pub open spec fn schema_or_unknown(ros_type: Option<Seq<char>>) -> Seq<char> {
    match ros_type {
        Some(ros_type) => ros_type,
        None => "unknown/Unknown"@,
    }
}

/// What is written at the start of a recording: the name of the metadata and their one
/// entry.
pub struct BagMetadata {
    pub name: String,
    pub key: String,
    pub value: String,
}

/// The metadata of a recording: the distribution of ROS, if it is known.
pub fn rosbag2_metadata(ros_distro: Option<String>) -> (r: BagMetadata)
    ensures
        r.name@ == "rosbag2"@,
        r.key@ == "ROS_DISTRO"@,
        r.value@ == (match text_opt(ros_distro) {
            Some(ros_distro) => ros_distro,
            None => "unknown"@,
        }),
{
    let value = match ros_distro {
        Some(ros_distro) => ros_distro,
        None => "unknown".to_owned(),
    };
    BagMetadata { name: "rosbag2".to_owned(), key: "ROS_DISTRO".to_owned(), value }
}

// Laws.

/// The book after so many messages on a channel.
pub open spec fn book_after(book: BookView, channel_id: u16, count: nat) -> BookView
    decreases count,
{
    if count == 0 {
        book
    } else {
        book_written(book_after(book, channel_id, (count - 1) as nat), channel_id)
    }
}

/// The messages on a new channel are numbered from zero, one by one, as long as the
/// numbers last. Other channels keep their numbers.
pub proof fn law_messages_numbered_in_order(
    book: BookView,
    channel_id: u16,
    other: u16,
    count: nat,
)
    requires
        !book.next_sequence.contains_key(channel_id),
        other != channel_id,
    ensures
        sequence_of(book_after(book, channel_id, count), channel_id) == (if count <= u32::MAX {
            count as u32
        } else {
            u32::MAX
        }),
        sequence_of(book_after(book, channel_id, count), other) == sequence_of(book, other),
    decreases count,
{
    if count > 0 {
        law_messages_numbered_in_order(book, channel_id, other, (count - 1) as nat);
    }
}

/// Adding the schema and then the channel that a message needs lets it be written, and
/// every later message with the same topic, schema and profile goes to that channel.
pub proof fn law_added_channel_is_used(
    book: BookView,
    topic: Seq<char>,
    schema: Seq<char>,
    qos_profile: Seq<char>,
    schema_id: u16,
    channel_id: u16,
)
    requires
        write_step(book, topic, schema, qos_profile) is AddSchema,
        !book.channel_ids.contains_key(
            ChannelShape { topic, schema_name: schema_name(schema), qos_profile },
        ),
    ensures
        ({
            let name = schema_name(schema);
            let with_schema = BookView {
                schema_ids: book.schema_ids.insert(name, schema_id),
                ..book
            };
            let with_channel = BookView {
                channel_ids: book.channel_ids.insert(
                    ChannelShape { topic, schema_name: name, qos_profile },
                    channel_id,
                ),
                ..with_schema
            };
            &&& write_step(with_schema, topic, schema, qos_profile) == channel_step(
                schema_id,
                name,
                qos_profile,
            )
            &&& write_step(with_channel, topic, schema, qos_profile) == StepView::Write {
                channel_id,
            }
        }),
{
}

/// A channel that is in use stays in use, whatever else is written or added.
pub proof fn law_channel_stays(
    book: BookView,
    topic: Seq<char>,
    schema: Seq<char>,
    qos_profile: Seq<char>,
    other_schema: Seq<char>,
    other_channel: ChannelShape,
    other_id: u16,
)
    requires
        write_step(book, topic, schema, qos_profile) is Write,
        other_channel != (ChannelShape { topic, schema_name: schema_name(schema), qos_profile }),
    ensures
        write_step(book_written(book, other_id), topic, schema, qos_profile) == write_step(
            book,
            topic,
            schema,
            qos_profile,
        ),
        write_step(
            BookView { schema_ids: book.schema_ids.insert(other_schema, other_id), ..book },
            topic,
            schema,
            qos_profile,
        ) == write_step(book, topic, schema, qos_profile),
        write_step(
            BookView { channel_ids: book.channel_ids.insert(other_channel, other_id), ..book },
            topic,
            schema,
            qos_profile,
        ) == write_step(book, topic, schema, qos_profile),
{
}

} // verus!
