//! Recording: what to record, where to, and whether it is paused.

use crate::command::names::{internal_name, is_internal_name};
use crate::command::protocol::{
    BagRecordRequest, BagSessionInfo, BagSessionView, BagSetPausedResponse, BagStatusResponse,
    BagStopResponse, CompressionFormat,
};
use crate::discovery::ros_graph::{is_discovery_topic, is_ros_discovery_info};
use crate::text::{chars_of, clone_texts, has_prefix, join3, starts_with, text_opt, texts};
use vstd::prelude::*;
use vstd::string::*;

verus! {

/// How the recorder compresses.
#[derive(Clone, Copy, Debug, Eq, PartialEq)]
pub enum CompressionConfig {
    Uncompressed,
    Zstd,
    Lz4,
}

impl Default for CompressionConfig {
    fn default() -> (r: CompressionConfig)
        ensures
            r == CompressionConfig::Uncompressed,
    {
        CompressionConfig::Uncompressed
    }
}

/// What to record.
pub struct BagRecordOptions {
    pub topics: Vec<String>,
    pub output: String,
    pub compression: CompressionConfig,
    pub no_discovery: bool,
    pub start_paused: bool,
}

/// What a [`BagRecordOptions`] holds.
#[verifier::ext_equal]
pub struct BagOptionsView {
    pub topics: Seq<Seq<char>>,
    pub output: Seq<char>,
    pub compression: CompressionConfig,
    pub no_discovery: bool,
    pub start_paused: bool,
}

impl View for BagRecordOptions {
    type V = BagOptionsView;

    open spec fn view(&self) -> BagOptionsView {
        BagOptionsView {
            topics: texts(self.topics@),
            output: self.output@,
            compression: self.compression,
            no_discovery: self.no_discovery,
            start_paused: self.start_paused,
        }
    }
}

/// A recording that is running.
pub struct RecordingSession {
    pub output: String,
    pub topics: Vec<String>,
    pub compression: CompressionConfig,
    pub no_discovery: bool,
    pub paused: bool,
}

/// What a [`RecordingSession`] holds.
#[verifier::ext_equal]
pub struct RecordingView {
    pub output: Seq<char>,
    pub topics: Seq<Seq<char>>,
    pub compression: CompressionConfig,
    pub no_discovery: bool,
    pub paused: bool,
}

impl View for RecordingSession {
    type V = RecordingView;

    open spec fn view(&self) -> RecordingView {
        RecordingView {
            output: self.output@,
            topics: texts(self.topics@),
            compression: self.compression,
            no_discovery: self.no_discovery,
            paused: self.paused,
        }
    }
}

/// The view of a recording that may be missing.
pub open spec fn recording_opt(session: Option<RecordingSession>) -> Option<RecordingView> {
    match session {
        Some(session) => Some(session@),
        None => None,
    }
}

/// `r` holds the value `want`, or the same message.
pub open spec fn is_result<T: View>(r: Result<T, String>, want: Result<T::V, Seq<char>>) -> bool {
    match (r, want) {
        (Ok(value), Ok(view)) => value@ == view,
        (Err(message), Err(text)) => message@ == text,
        _ => false,
    }
}

// Topics.

/// The word for all topics, in any case.
pub open spec fn is_all(topic: Seq<char>) -> bool {
    &&& topic.len() == 3
    &&& (topic[0] == 'a' || topic[0] == 'A')
    &&& (topic[1] == 'l' || topic[1] == 'L')
    &&& (topic[2] == 'l' || topic[2] == 'L')
}

/// The first `count` topics start with a slash.
pub open spec fn absolute_up_to(topics: Seq<Seq<char>>, count: int) -> bool {
    forall|i: int| 0 <= i < count ==> starts_with(#[trigger] topics[i], "/"@)
}

/// The first topic that does not start with a slash.
pub open spec fn first_relative(topics: Seq<Seq<char>>, i: int) -> bool {
    0 <= i < topics.len() && !starts_with(topics[i], "/"@) && absolute_up_to(topics, i)
}

/// Some topic is the word for all topics.
pub open spec fn names_all(topics: Seq<Seq<char>>) -> bool {
    exists|i: int| 0 <= i < topics.len() && is_all(#[trigger] topics[i])
}

/// What is refused when the word for all topics is not alone.
pub open spec fn all_not_alone_text(source: Seq<char>) -> Seq<char> {
    source
        + ": topics must be either ['all'] or a list of absolute topic names like ['/chatter']"@
}

/// What is refused when a topic does not start with a slash.
pub open spec fn relative_topic_text(source: Seq<char>, topic: Seq<char>) -> Seq<char> {
    source + ": explicit topic '"@ + topic
        + "' must start with '/'; use ['/chatter'] instead of ['chatter']"@
}

/// The topics to record: none stands for all. They are either the one word for all
/// topics or names that start with a slash.
pub open spec fn normalized_topics(topics: Seq<Seq<char>>, source: Seq<char>) -> Result<
    Seq<Seq<char>>,
    Seq<char>,
> {
    if names_all(topics) {
        if topics.len() == 1 {
            Ok(seq![])
        } else {
            Err(all_not_alone_text(source))
        }
    } else if absolute_up_to(topics, topics.len() as int) {
        Ok(topics)
    } else {
        let i = choose|i: int| first_relative(topics, i);
        Err(relative_topic_text(source, topics[i]))
    }
}

/// Whether a text is the word for all topics.
fn says_all(topic: &str) -> (r: bool)
    ensures
        r == is_all(topic@),
{
    let chars = chars_of(topic);
    chars.len() == 3 && (chars[0] == 'a' || chars[0] == 'A') && (chars[1] == 'l' || chars[1] == 'L')
        && (chars[2] == 'l' || chars[2] == 'L')
}

/// Checks the topics to record. None stands for all.
pub fn normalize_topics(topics: &Vec<String>, source: &str) -> (r: Result<Vec<String>, String>)
    ensures
        match (r, normalized_topics(texts(topics@), source@)) {
            (Ok(list), Ok(want)) => texts(list@) == want,
            (Err(message), Err(want)) => message@ == want,
            _ => false,
        },
{
    let ghost views = texts(topics@);
    let mut i: usize = 0;
    while i < topics.len()
        invariant
            views == texts(topics@),
            i <= topics.len(),
            forall|j: int| 0 <= j < i ==> !is_all(#[trigger] views[j]),
        decreases topics.len() - i,
    {
        if says_all(topics[i].as_str()) {
            assert(is_all(views[i as int]));
            if topics.len() == 1 {
                let r: Vec<String> = Vec::new();
                assert(texts(r@) =~= seq![]);
                return Ok(r);
            }
            let mut message = source.to_owned();
            message.append(
                ": topics must be either ['all'] or a list of absolute topic names like ['/chatter']",
            );
            return Err(message);
        }
        i += 1;
    }
    let mut at: usize = 0;
    while at < topics.len()
        invariant
            views == texts(topics@),
            at <= topics.len(),
            !names_all(views),
            absolute_up_to(views, at as int),
        decreases topics.len() - at,
    {
        if !has_prefix(topics[at].as_str(), "/") {
            proof {
                let found = choose|i: int| first_relative(views, i);
                assert(first_relative(views, at as int));
                assert(first_relative(views, found));
                assert(found == at) by {
                    if found < at {
                        assert(starts_with(views[found], "/"@));
                    }
                    if at < found {
                        assert(starts_with(views[at as int], "/"@));
                    }
                }
            }
            let mut message = join3(source, ": explicit topic '", topics[at].as_str());
            message.append("' must start with '/'; use ['/chatter'] instead of ['chatter']");
            return Err(message);
        }
        at += 1;
    }
    Ok(clone_texts(topics))
}

// Compression.

/// The compression that a format stands for.
pub open spec fn config_of(format: CompressionFormat) -> CompressionConfig {
    match format {
        CompressionFormat::Uncompressed => CompressionConfig::Uncompressed,
        CompressionFormat::Zstd => CompressionConfig::Zstd,
        CompressionFormat::Lz4 => CompressionConfig::Lz4,
    }
}

/// The format that stands for a compression.
pub open spec fn format_of(config: CompressionConfig) -> CompressionFormat {
    match config {
        CompressionConfig::Uncompressed => CompressionFormat::Uncompressed,
        CompressionConfig::Zstd => CompressionFormat::Zstd,
        CompressionConfig::Lz4 => CompressionFormat::Lz4,
    }
}

/// Turns a format into the compression it stands for.
pub fn compression_config_from_format(format: CompressionFormat) -> (r: CompressionConfig)
    ensures
        r == config_of(format),
{
    match format {
        CompressionFormat::Uncompressed => CompressionConfig::Uncompressed,
        CompressionFormat::Zstd => CompressionConfig::Zstd,
        CompressionFormat::Lz4 => CompressionConfig::Lz4,
    }
}

/// Turns a compression into the format that stands for it.
pub fn compression_format_from_config(config: CompressionConfig) -> (r: CompressionFormat)
    ensures
        r == format_of(config),
{
    match config {
        CompressionConfig::Uncompressed => CompressionFormat::Uncompressed,
        CompressionConfig::Zstd => CompressionFormat::Zstd,
        CompressionConfig::Lz4 => CompressionFormat::Lz4,
    }
}

/// Formats and compressions stand for each other.
pub proof fn law_compression_names_match(format: CompressionFormat, config: CompressionConfig)
    ensures
        format_of(config_of(format)) == format,
        config_of(format_of(config)) == config,
{
}

// Options.

/// Where a recording goes that was begun at the given time.
pub open spec fn stamped_path(stamp: Seq<char>) -> Seq<char> {
    "rosbag2_"@ + stamp + ".mcap"@
}

/// Where a recording goes that was begun at the given time.
pub fn stamped_bag_path(stamp: &str) -> (r: String)
    ensures
        r@ == stamped_path(stamp@),
{
    join3("rosbag2_", stamp, ".mcap")
}

/// A decimal digit.
pub open spec fn is_digit(c: char) -> bool {
    '0' <= c <= '9'
}

/// A number of two digits stands at a place of a text, within the given bounds.
pub open spec fn two_digits(text: Seq<char>, at: int, low: int, high: int) -> bool {
    &&& is_digit(text[at])
    &&& is_digit(text[at + 1])
    &&& low <= (text[at] as int - '0' as int) * 10 + (text[at + 1] as int - '0' as int) <= high
}

/// A year: four digits, or a sign and four digits or more.
pub open spec fn is_year(text: Seq<char>) -> bool {
    ||| text.len() == 4 && forall|i: int| 0 <= i < 4 ==> is_digit(#[trigger] text[i])
    ||| text.len() >= 5 && (text[0] == '+' || text[0] == '-') && forall|i: int|
        1 <= i < text.len() ==> is_digit(#[trigger] text[i])
}

/// A year, a month, a day, an hour, a minute and a second, as in `2024_05_17-08_30_59`. The
/// second may be a leap second.
pub open spec fn is_stamp(text: Seq<char>) -> bool {
    let at = text.len() - 15;
    &&& at >= 4
    &&& is_year(text.take(at))
    &&& text[at] == '_' && two_digits(text, at + 1, 1, 12)
    &&& text[at + 3] == '_' && two_digits(text, at + 4, 1, 31)
    &&& text[at + 6] == '-' && two_digits(text, at + 7, 0, 23)
    &&& text[at + 9] == '_' && two_digits(text, at + 10, 0, 59)
    &&& text[at + 12] == '_' && two_digits(text, at + 13, 0, 60)
}

/// `chrono::Local::now`, written out in the given format: the year with four digits, or with
/// a sign where it is not one of four digits, and every other field with two. Which time it
/// is rests on the clock and the time zone, so nothing is said of that. Writing out panics on
/// a format that `chrono` does not know.
#[verifier::external_body]
fn local_time_text(format: &str) -> (r: String)
    requires
        format@ == "%Y_%m_%d-%H_%M_%S"@,
    ensures
        is_stamp(r@),
{
    chrono::Local::now().format(format).to_string()
}

/// Where a recording goes when nothing is said: a file named after the local time.
pub fn default_bag_output_path() -> (r: String)
    ensures
        exists|stamp: Seq<char>| is_stamp(stamp) && r@ == #[trigger] stamped_path(stamp),
{
    let stamp = local_time_text("%Y_%m_%d-%H_%M_%S");
    let r = stamped_bag_path(stamp.as_str());
    assert(r@ == stamped_path(stamp@));
    r
}

/// Why a request is refused, if so.
pub open spec fn bag_request_error(request: BagRecordRequest) -> Option<Seq<char>> {
    if request.all && request.topics@.len() > 0 {
        Some("--all cannot be combined with explicit topic names"@)
    } else {
        match normalized_topics(texts(request.topics@), "rp bag record"@) {
            Err(message) => Some(message),
            Ok(topics) => if !request.all && topics.len() == 0 {
                Some("pass one or more topics, or use --all"@)
            } else {
                None
            },
        }
    }
}

/// What a request asks to record, with an output where it names none.
pub open spec fn bag_options(request: BagRecordRequest, default_output: Seq<char>) -> Result<
    BagOptionsView,
    Seq<char>,
> {
    match bag_request_error(request) {
        Some(message) => Err(message),
        None => Ok(
            BagOptionsView {
                topics: if request.all {
                    seq![]
                } else {
                    normalized_topics(texts(request.topics@), "rp bag record"@)->Ok_0
                },
                output: match request.output {
                    Some(output) => output@,
                    None => default_output,
                },
                compression: match request.compression_format {
                    Some(format) => config_of(format),
                    None => CompressionConfig::Uncompressed,
                },
                no_discovery: request.no_discovery,
                start_paused: request.start_paused,
            },
        ),
    }
}

/// Checks a request and reads what it asks to record.
pub fn bag_options_with_output(request: BagRecordRequest, default_output: String) -> (r: Result<
    BagRecordOptions,
    String,
>)
    ensures
        is_result(r, bag_options(request, default_output@)),
{
    if request.all && request.topics.len() > 0 {
        return Err("--all cannot be combined with explicit topic names".to_owned());
    }
    let topics = match normalize_topics(&request.topics, "rp bag record") {
        Err(message) => return Err(message),
        Ok(topics) => topics,
    };
    assert(topics@.len() == texts(topics@).len());
    if !request.all && topics.len() == 0 {
        return Err("pass one or more topics, or use --all".to_owned());
    }
    let topics = if request.all { Vec::new() } else { topics };
    assert(request.all ==> texts(topics@) =~= seq![]);
    Ok(
        BagRecordOptions {
            topics,
            output: match request.output {
                Some(output) => output,
                None => default_output,
            },
            compression: match request.compression_format {
                Some(format) => compression_config_from_format(format),
                None => CompressionConfig::Uncompressed,
            },
            no_discovery: request.no_discovery,
            start_paused: request.start_paused,
        },
    )
}

/// Checks a request and reads what it asks to record. Where it names no output, the
/// local time does.
pub fn bag_record_options_from_request(request: BagRecordRequest) -> (r: Result<
    BagRecordOptions,
    String,
>)
    ensures
        exists|stamp: Seq<char>|
            is_stamp(stamp) && is_result(
                r,
                bag_options(request, #[trigger] stamped_path(stamp)),
            ),
{
    let default_output = default_bag_output_path();
    bag_options_with_output(request, default_output)
}

// The recording.

/// What clients are told of a recording.
pub open spec fn session_info(view: RecordingView) -> BagSessionView {
    BagSessionView {
        output: view.output,
        paused: view.paused,
        topics: view.topics,
        all_topics: view.topics.len() == 0,
        no_discovery: view.no_discovery,
        compression_format: format_of(view.compression),
    }
}

fn describe_recording(session: &RecordingSession) -> (r: BagSessionInfo)
    ensures
        r@ == session_info(session@),
{
    assert(session.topics@.len() == texts(session.topics@).len());
    BagSessionInfo {
        output: session.output.clone(),
        paused: session.paused,
        topics: clone_texts(&session.topics),
        all_topics: session.topics.len() == 0,
        no_discovery: session.no_discovery,
        compression_format: compression_format_from_config(session.compression),
    }
}

/// The recording that the given options begin.
pub open spec fn recording_of(options: BagOptionsView) -> RecordingView {
    RecordingView {
        output: options.output,
        topics: options.topics,
        compression: options.compression,
        no_discovery: options.no_discovery,
        paused: options.start_paused,
    }
}

/// Begins the recording that the given options ask for.
pub fn start_recording(options: BagRecordOptions) -> (r: RecordingSession)
    ensures
        r@ == recording_of(options@),
{
    RecordingSession {
        output: options.output,
        topics: options.topics,
        compression: options.compression,
        no_discovery: options.no_discovery,
        paused: options.start_paused,
    }
}

/// Why a recording cannot be begun, if so: one is running, or the request is refused.
pub fn prepare_bag_record(
    request: BagRecordRequest,
    recording_session: &Option<RecordingSession>,
) -> (r: Result<BagRecordOptions, String>)
    ensures
        if *recording_session is Some {
            r matches Err(message) && message@ == "bag recording is already active"@
        } else {
            exists|stamp: Seq<char>|
                is_stamp(stamp) && is_result(
                    r,
                    bag_options(request, #[trigger] stamped_path(stamp)),
                )
        },
{
    if recording_session.is_some() {
        return Err("bag recording is already active".to_owned());
    }
    bag_record_options_from_request(request)
}

/// Notes whether the recorder has started. If it has, the recording runs.
pub fn handle_bag_record_command(
    options: BagRecordOptions,
    started: Result<(), String>,
    recording_session: &mut Option<RecordingSession>,
) -> (r: Result<BagSessionInfo, String>)
    requires
        *old(recording_session) is None,
    ensures
        match started {
            Ok(()) => {
                &&& r matches Ok(info)
                &&& info@ == session_info(recording_of(options@))
                &&& recording_opt(*final(recording_session)) == Some(recording_of(options@))
            },
            Err(message) => {
                &&& r matches Err(got)
                &&& got@ == message@
                &&& *final(recording_session) is None
            },
        },
{
    match started {
        Err(message) => Err(message),
        Ok(()) => {
            let session = start_recording(options);
            let info = describe_recording(&session);
            *recording_session = Some(session);
            Ok(info)
        },
    }
}

/// Ends a recording and says whether there was one. The recorder is then to be stopped.
pub fn take_recording(recording_session: &mut Option<RecordingSession>) -> (r: bool)
    ensures
        *final(recording_session) is None,
        r == (*old(recording_session) is Some),
{
    recording_session.take().is_some()
}

/// What clients are told once a recording has ended. `stopped` is what the recorder
/// said, where there was a recording.
pub fn stop_recording(stopped: Option<Result<Option<String>, String>>) -> (r: Result<
    BagStopResponse,
    String,
>)
    ensures
        match stopped {
            None => r matches Ok(response) && !response.stopped && response.output is None,
            Some(Ok(output)) => r matches Ok(response) && response.stopped && text_opt(
                response.output,
            ) == text_opt(output),
            Some(Err(message)) => r matches Err(got) && got@ == message@,
        },
{
    match stopped {
        None => Ok(BagStopResponse { stopped: false, output: None }),
        Some(Ok(output)) => Ok(BagStopResponse { stopped: true, output }),
        Some(Err(message)) => Err(message),
    }
}

/// Pauses a recording or resumes it.
pub fn set_paused(recording_session: &mut Option<RecordingSession>, paused: bool) -> (r:
    BagSetPausedResponse)
    ensures
        r == (BagSetPausedResponse { active: *old(recording_session) is Some, paused }),
        recording_opt(*final(recording_session)) == (match recording_opt(*old(recording_session)) {
            None => None::<RecordingView>,
            Some(view) => Some(RecordingView { paused, ..view }),
        }),
{
    match recording_session.take() {
        None => BagSetPausedResponse { active: false, paused },
        Some(mut session) => {
            session.paused = paused;
            *recording_session = Some(session);
            BagSetPausedResponse { active: true, paused }
        },
    }
}

/// Tells whether a recording is running, and what it records.
pub fn build_bag_status_response(recording_session: &Option<RecordingSession>) -> (r:
    BagStatusResponse)
    ensures
        r.active == (*recording_session is Some),
        match (r.session, recording_opt(*recording_session)) {
            (Some(info), Some(view)) => info@ == session_info(view),
            (None, None) => true,
            _ => false,
        },
{
    match recording_session {
        None => BagStatusResponse { active: false, session: None },
        Some(session) => BagStatusResponse {
            active: true,
            session: Some(describe_recording(session)),
        },
    }
}

/// A recording takes messages of a topic, as far as the name of the topic tells: it is not
/// paused, the topic on which nodes are listed is not left out, and the topic is not
/// internal.
pub open spec fn takes_topic(view: RecordingView, topic_name: Seq<char>) -> bool {
    &&& !view.paused
    &&& !(view.no_discovery && is_discovery_topic(topic_name))
    &&& !internal_name(topic_name)
}

/// Whether a message of a topic goes to the recorder, as far as the name of the topic tells.
pub fn record_message(recording_session: &Option<RecordingSession>, topic_name: &str) -> (r: bool)
    ensures
        r == (recording_opt(*recording_session) matches Some(view) && takes_topic(
            view,
            topic_name@,
        )),
{
    match recording_session {
        None => false,
        Some(session) => {
            !session.paused && !(session.no_discovery && is_ros_discovery_info(topic_name))
                && !is_internal_name(topic_name)
        },
    }
}

/// What the picture of the ROS graph tells of a topic.
#[derive(Clone, Copy, Debug, Eq, PartialEq)]
pub struct TopicReach {
    /// How many subscribers it has.
    pub subscription_count: usize,
    /// Whether nobody on it was seen from another host.
    pub local_only: bool,
}

/// A topic is known to have no subscribers, or to stay on this host.
pub open spec fn kept_local(reach: Option<TopicReach>) -> bool {
    reach matches Some(reach) && (reach.subscription_count == 0 || reach.local_only)
}

/// A recording takes messages of a topic of which the graph may tell more: a recording of
/// all topics also leaves out those without subscribers and those that stay on this host.
pub open spec fn records(
    view: RecordingView,
    topic_name: Seq<char>,
    reach: Option<TopicReach>,
) -> bool {
    takes_topic(view, topic_name) && !(view.topics.len() == 0 && kept_local(reach))
}

/// Whether a message of a topic goes to the recorder.
pub fn record_topic(
    recording_session: &Option<RecordingSession>,
    topic_name: &str,
    reach: Option<TopicReach>,
) -> (r: bool)
    ensures
        r == (recording_opt(*recording_session) matches Some(view) && records(
            view,
            topic_name@,
            reach,
        )),
{
    if !record_message(recording_session, topic_name) {
        return false;
    }
    match recording_session {
        None => false,
        Some(session) => {
            assert(session@.topics.len() == session.topics@.len());
            let local = match reach {
                None => false,
                Some(reach) => reach.subscription_count == 0 || reach.local_only,
            };
            !(session.topics.len() == 0 && local)
        },
    }
}

// Laws.

/// No recording takes an internal topic, not even one that names it.
pub proof fn law_internal_topics_not_recorded(
    view: RecordingView,
    topic_name: Seq<char>,
    reach: Option<TopicReach>,
)
    requires
        internal_name(topic_name),
    ensures
        !takes_topic(view, topic_name),
        !records(view, topic_name, reach),
{
}

/// A recording of all topics never takes one without subscribers, nor one that stays on this
/// host.
pub proof fn law_local_topics_not_recorded(
    view: RecordingView,
    topic_name: Seq<char>,
    reach: Option<TopicReach>,
)
    requires
        view.topics.len() == 0,
        kept_local(reach),
    ensures
        !records(view, topic_name, reach),
{
}

/// A recording that leaves discovery out never takes the topic on which nodes are listed.
pub proof fn law_discovery_left_out(
    view: RecordingView,
    topic_name: Seq<char>,
    reach: Option<TopicReach>,
)
    requires
        view.no_discovery,
        is_discovery_topic(topic_name),
    ensures
        !records(view, topic_name, reach),
{
}

} // verus!
