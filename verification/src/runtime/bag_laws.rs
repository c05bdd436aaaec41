//! What is recorded, and what clients are told of it.

use crate::command::names::internal_name;
use crate::command::protocol::{BagRecordRequest, CompressionFormat};
use crate::runtime::bag::{
    absolute_up_to, bag_options, first_relative, is_all, is_result, names_all,
    normalized_topics, recording_of, records, session_info, stamped_path, takes_topic,
    BagOptionsView, CompressionConfig, RecordingView, TopicReach,
};
use crate::text::{starts_with, texts};
use crate::text_laws::law_prefix_taken_off;
use vstd::prelude::*;
use vstd::string::*;

verus! {

/// The name is that of the topic on which participants list their nodes, as ROS has it or as
/// DDS has it.
pub open spec fn lists_nodes_of_participants(topic_name: Seq<char>) -> bool {
    topic_name == "/ros_discovery_info"@ || topic_name == "rt/ros_discovery_info"@
}

/// A recording that names its topics takes every topic that is not internal, whatever the
/// graph tells of it. A recording of all topics takes every such topic of which the graph
/// tells nothing, or that has subscribers and is seen from other hosts, and no other. Either
/// takes the topic on which nodes are listed unless it is to leave that out.
pub proof fn law_running_recording_takes_topics(
    view: RecordingView,
    topic_name: Seq<char>,
    reach: Option<TopicReach>,
)
    requires
        !view.paused,
        !internal_name(topic_name),
        view.no_discovery ==> !lists_nodes_of_participants(topic_name),
    ensures
        takes_topic(view, topic_name),
        view.topics.len() > 0 ==> records(view, topic_name, reach),
        reach is None ==> records(view, topic_name, reach),
        view.topics.len() == 0 ==> (reach matches Some(reach_known) ==> (records(
            view,
            topic_name,
            reach,
        ) <==> reach_known.subscription_count > 0 && !reach_known.local_only)),
{
}

/// A paused recording takes nothing. Once it is resumed it takes what it took before.
pub proof fn law_paused_recording_takes_nothing(
    view: RecordingView,
    topic_name: Seq<char>,
    reach: Option<TopicReach>,
)
    ensures
        view.paused ==> !takes_topic(view, topic_name) && !records(view, topic_name, reach),
        !view.paused ==> records(
            RecordingView { paused: false, ..RecordingView { paused: true, ..view } },
            topic_name,
            reach,
        ) == records(view, topic_name, reach),
{
}

/// A recording that leaves discovery out differs from one that does not in the topic on
/// which nodes are listed alone.
pub proof fn law_only_discovery_left_out(
    view: RecordingView,
    topic_name: Seq<char>,
    reach: Option<TopicReach>,
)
    ensures
        ({
            let without = RecordingView { no_discovery: true, ..view };
            let with = RecordingView { no_discovery: false, ..view };
            &&& records(without, topic_name, reach) <==> records(with, topic_name, reach)
                && !lists_nodes_of_participants(topic_name)
            &&& takes_topic(without, topic_name) <==> takes_topic(with, topic_name)
                && !lists_nodes_of_participants(topic_name)
        }),
{
}

/// A letter, in either case.
pub open spec fn is_letter(c: char, small: char, capital: char) -> bool {
    c == small || c == capital
}

/// A list of names that start with a slash is kept as it is. The word for all topics, alone
/// and in any case, stands for none.
pub proof fn law_topics_kept(topics: Seq<Seq<char>>, word: Seq<char>, source: Seq<char>)
    requires
        forall|i: int| 0 <= i < topics.len() ==> (#[trigger] topics[i]).len() > 0
            && topics[i][0] == '/',
        word.len() == 3,
        is_letter(word[0], 'a', 'A'),
        is_letter(word[1], 'l', 'L'),
        is_letter(word[2], 'l', 'L'),
    ensures
        normalized_topics(topics, source) == Ok::<Seq<Seq<char>>, Seq<char>>(topics),
        normalized_topics(seq![word], source) == Ok::<Seq<Seq<char>>, Seq<char>>(seq![]),
{
    reveal_strlit("/");
    assert forall|i: int| 0 <= i < topics.len() implies starts_with(
        #[trigger] topics[i],
        "/"@,
    ) && !is_all(topics[i]) by {
        let topic = topics[i];
        assert(topic =~= "/"@ + topic.skip(1));
        law_prefix_taken_off(topic, "/"@, topic.skip(1));
    }
    assert(seq![word][0] == word);
    assert(is_all(word));
    assert(names_all(seq![word]));
}

/// A list is refused if a name in it does not start with a slash, unless it is the one word
/// for all topics. Where the word for all topics is among several, that is said; else the
/// first name without a slash is.
pub proof fn law_other_topics_refused(topics: Seq<Seq<char>>, source: Seq<char>, i: int)
    requires
        0 <= i < topics.len(),
        topics[i].len() == 0 || topics[i][0] != '/',
        forall|j: int| 0 <= j < i ==> (#[trigger] topics[j]).len() > 0 && topics[j][0] == '/',
    ensures
        (exists|k: int| 0 <= k < topics.len() && is_all(#[trigger] topics[k])) && topics.len() > 1
            ==> normalized_topics(topics, source) == Err::<Seq<Seq<char>>, Seq<char>>(
            source
                + ": topics must be either ['all'] or a list of absolute topic names like ['/chatter']"@,
        ),
        (forall|k: int| 0 <= k < topics.len() ==> !is_all(#[trigger] topics[k]))
            ==> normalized_topics(topics, source) == Err::<Seq<Seq<char>>, Seq<char>>(
            source + ": explicit topic '"@ + topics[i]
                + "' must start with '/'; use ['/chatter'] instead of ['chatter']"@,
        ),
{
    reveal_strlit("/");
    assert(!starts_with(topics[i], "/"@)) by {
        if starts_with(topics[i], "/"@) {
            assert(topics[i].take(1)[0] == topics[i][0]);
            assert(topics[i].subrange(0, 1)[0] == topics[i][0]);
        }
    }
    assert forall|j: int| 0 <= j < i implies starts_with(#[trigger] topics[j], "/"@) by {
        let topic = topics[j];
        assert(topic =~= "/"@ + topic.skip(1));
        law_prefix_taken_off(topic, "/"@, topic.skip(1));
    }
    assert(first_relative(topics, i));
    if !names_all(topics) {
        assert(!absolute_up_to(topics, topics.len() as int)) by {
            if absolute_up_to(topics, topics.len() as int) {
                assert(starts_with(topics[i], "/"@));
            }
        }
        let found = choose|k: int| first_relative(topics, k);
        assert(first_relative(topics, found));
        assert(found == i) by {
            if found < i {
                assert(starts_with(topics[found], "/"@));
            }
            if i < found {
                assert(starts_with(topics[i], "/"@));
            }
        }
    }
}

/// `word` is the word for all topics if it is `all`, in any case.
pub proof fn law_word_for_all_topics(word: Seq<char>)
    ensures
        is_all(word) <==> word.len() == 3 && is_letter(word[0], 'a', 'A') && is_letter(
            word[1],
            'l',
            'L',
        ) && is_letter(word[2], 'l', 'L'),
{
}

/// The request names topics, each with a slash before it.
pub open spec fn names_topics(request: BagRecordRequest) -> bool {
    &&& !request.all
    &&& request.topics@.len() > 0
    &&& forall|i: int|
        0 <= i < request.topics@.len() ==> (#[trigger] request.topics@[i])@.len() > 0
            && request.topics@[i]@[0] == '/'
}

/// What is recorded is what the request says: the topics it names or all of them, to the
/// output it names or one that is named for it, compressed as it says or not at all, with or
/// without discovery, and paused or not. Clients are told the same of the recording.
pub proof fn law_recording_is_what_was_asked(
    request: BagRecordRequest,
    default_output: Seq<char>,
)
    requires
        names_topics(request) || request.all && request.topics@.len() == 0,
    ensures
        bag_options(request, default_output) matches Ok(options) && {
            let view = recording_of(options);
            let info = session_info(view);
            &&& request.all ==> view.topics.len() == 0
            &&& !request.all ==> view.topics == texts(request.topics@)
            &&& view.output == (match request.output {
                Some(output) => output@,
                None => default_output,
            })
            &&& view.compression == (match request.compression_format {
                None => CompressionConfig::Uncompressed,
                Some(CompressionFormat::Uncompressed) => CompressionConfig::Uncompressed,
                Some(CompressionFormat::Zstd) => CompressionConfig::Zstd,
                Some(CompressionFormat::Lz4) => CompressionConfig::Lz4,
            })
            &&& view.no_discovery == request.no_discovery
            &&& view.paused == request.start_paused
            &&& info.topics == view.topics
            &&& info.all_topics == request.all
            &&& info.output == view.output
            &&& info.paused == request.start_paused
            &&& info.no_discovery == request.no_discovery
            &&& info.compression_format == (match request.compression_format {
                None => CompressionFormat::Uncompressed,
                Some(format) => format,
            })
        },
{
    let topics = texts(request.topics@);
    assert(topics.len() == request.topics@.len());
    assert forall|i: int| 0 <= i < topics.len() implies (#[trigger] topics[i]).len() > 0
        && topics[i][0] == '/' by {
        assert(topics[i] == request.topics@[i]@);
    }
    law_topics_kept(topics, seq!['a', 'l', 'l'], "rp bag record"@);
}

/// A request that asks for all topics and names some, or that does neither, is refused.
pub proof fn law_unclear_request_refused(request: BagRecordRequest, default_output: Seq<char>)
    ensures
        request.all && request.topics@.len() > 0 ==> bag_options(request, default_output) == Err::<
            BagOptionsView,
            Seq<char>,
        >("--all cannot be combined with explicit topic names"@),
        !request.all && request.topics@.len() == 0 ==> bag_options(request, default_output)
            == Err::<BagOptionsView, Seq<char>>("pass one or more topics, or use --all"@),
        !request.all && (request.topics@.len() == 1 && is_all(request.topics@[0]@))
            ==> bag_options(request, default_output) == Err::<BagOptionsView, Seq<char>>(
            "pass one or more topics, or use --all"@,
        ),
{
    let topics = texts(request.topics@);
    assert(topics.len() == request.topics@.len());
    if request.topics@.len() == 1 {
        assert(topics[0] == request.topics@[0]@);
    }
    if request.topics@.len() == 0 {
        law_topics_kept(topics, seq!['a', 'l', 'l'], "rp bag record"@);
    }
}

/// A request that names a topic without a slash is refused with that name, and one that has
/// the word for all topics among others is refused for that.
pub proof fn law_relative_topic_refused(
    request: BagRecordRequest,
    default_output: Seq<char>,
    i: int,
)
    requires
        !request.all,
        0 <= i < request.topics@.len(),
        request.topics@[i]@.len() == 0 || request.topics@[i]@[0] != '/',
        forall|j: int|
            0 <= j < i ==> (#[trigger] request.topics@[j])@.len() > 0 && request.topics@[j]@[0]
                == '/',
    ensures
        (forall|k: int|
            0 <= k < request.topics@.len() ==> !is_all((#[trigger] request.topics@[k])@))
            ==> bag_options(request, default_output) == Err::<BagOptionsView, Seq<char>>(
            "rp bag record"@ + ": explicit topic '"@ + request.topics@[i]@
                + "' must start with '/'; use ['/chatter'] instead of ['chatter']"@,
        ),
        request.topics@.len() > 1 && (exists|k: int|
            0 <= k < request.topics@.len() && is_all((#[trigger] request.topics@[k])@))
            ==> bag_options(request, default_output) == Err::<BagOptionsView, Seq<char>>(
            "rp bag record"@
                + ": topics must be either ['all'] or a list of absolute topic names like ['/chatter']"@,
        ),
{
    let topics = texts(request.topics@);
    assert(topics.len() == request.topics@.len());
    assert forall|k: int| 0 <= k < topics.len() implies #[trigger] topics[k]
        == request.topics@[k]@ by {}
    assert forall|j: int| 0 <= j < i implies (#[trigger] topics[j]).len() > 0 && topics[j][0]
        == '/' by {
        assert(request.topics@[j]@.len() > 0);
    }
    if exists|k: int| 0 <= k < request.topics@.len() && is_all((#[trigger] request.topics@[k])@) {
        let k = choose|k: int|
            0 <= k < request.topics@.len() && is_all((#[trigger] request.topics@[k])@);
        assert(is_all(topics[k]));
    } else {
        assert forall|k: int| 0 <= k < topics.len() implies !is_all(#[trigger] topics[k]) by {
            assert(!is_all(request.topics@[k]@));
        }
    }
    law_other_topics_refused(topics, "rp bag record"@, i);
}

/// What comes of a request is what it asks for, or why it is refused.
pub proof fn law_result_told<T: View>(
    told: Result<T, String>,
    wanted: Result<T::V, Seq<char>>,
)
    requires
        is_result(told, wanted),
    ensures
        wanted matches Ok(view) ==> (told matches Ok(value) && value@ == view),
        wanted matches Err(text) ==> (told matches Err(message) && message@ == text),
{
}

/// A file that is named after the time holds the time between its two fixed parts, so that
/// other times give other files.
pub proof fn law_files_named_after_time(first: Seq<char>, second: Seq<char>)
    ensures
        stamped_path(first) == "rosbag2_"@ + first + ".mcap"@,
        stamped_path(first) == stamped_path(second) ==> first == second,
{
    let before = "rosbag2_"@;
    let behind = ".mcap"@;
    let a = stamped_path(first);
    let b = stamped_path(second);
    if a == b {
        assert(first =~= a.subrange(before.len() as int, a.len() - behind.len()));
        assert(second =~= b.subrange(before.len() as int, b.len() - behind.len()));
    }
}

} // verus!
