//! What the model is told: the system prompt, and what the user says now.
use crate::json::{Json, JsonView};
use crate::message::{attachments_view, Attachment, AttachmentView, InboundMessage, InboundView};
use crate::numbers::{decimal_string, decimal_text};
use crate::service::config::{is_plan, plans};
use crate::service::skills::{format_skills_section, skills_section, skills_view, SkillMeta, SkillView};
use crate::text::{
    after, begins, is_white, mentions, option_str, option_text, part, same, starts_with, texts, trim,
    trimmed,
};
use crate::types::{blocks_view, BlockView, ContentBlock, ImageSource, ImageView};
use vstd::prelude::*;
use vstd::string::*;

verus! {

/// How the model is to reply.
pub const REPLY_INSTRUCTIONS: &'static str = "## Reply Instructions\nWhen you have your answer ready, use the jyc_reply_message tool:\n- `message`: Your reply text\n- `attachments`: Optional filenames to attach from the working directory\n- `stop_after` (boolean, default true): Whether to stop working after this reply\nCRITICAL: Always use the jyc_reply_message tool to send your reply.\n\n**Final reply**: Set `stop_after: true` (or omit it). After a successful reply with\nstop_after=true, STOP immediately. Do NOT call any other tools.\n**Progress update**: For long-running tasks, send periodic progress replies with\n`stop_after: false`. Each reply is a checkpoint — you will continue working\nafterward. Use this when you have substantive progress to report.\n\n";

/// How earlier tool calls are shown.
pub const HISTORY_FORMAT: &'static str = "## History Format\nPast turns in your context may show tool calls rendered as text: `(incl. followed tool calls: name(args) → result)`. These are READ-ONLY summaries of what already happened. Writing this format as your message text does NOT invoke any tool — only real tool calls do.\n\n";

/// Where earlier messages are found.
pub const CHAT_HISTORY: &'static str = "## Chat History\nThis topic maintains a chronological chat history in `.jyc/chat_history_YYYY-MM-DD.jsonl`.\nEach line is a JSON object (one message or reply per line). You can read it with the\n`read` tool if you need context from prior conversations, or use `grep` to search.\nFor earlier turns of THIS conversation that have fallen out of your context window,\nuse the `context_browse` tool to page the in-memory transcript.\n";

/// What must not be committed.
pub const VERSION_CONTROL: &'static str = "## Version Control\nThe `.jyc/` directory is JYC's private runtime state (credentials, chat history, sessions).\nNEVER stage or commit it: do not run `git add .jyc`, do not run `git add -f` on it, and\nbefore `git add .`, check that it will not include `.jyc/`.\n\n";

/// How other topics are reached.
pub const CROSS_TOPIC: &'static str = "\n## Cross-Topic Communication\n\nYou can send messages to topics in other channels using the `jyc_send_to_topic` tool.\nSet `require_reply=true` when you need the target agent to send results back to you.\n\nWhen you receive a message with a **Source:** header, it came from another topic. Process the content normally and use `jyc_reply_message` to display results in the current topic. If it includes \"⚠️ Reply requested\", you MUST ALSO use `jyc_send_to_topic` to send your results back to the source channel/topic.\n";

/// How a message is sent without an agent.
pub const DIRECT_OUTBOUND: &'static str = "For direct outbound messaging (bypassing agent processing), use `jyc_send_message` with the optional `channel` parameter set to a target channel name.\n`jyc_send_message` sends directly through the channel's outbound adapter without agent processing. `jyc_send_to_topic` injects into a topic queue for agent processing.\n\n";

/// What planning allows.
pub const PLAN_REMINDER: &'static str = "<system-reminder>\nCRITICAL: You are in PLAN MODE (read-only). You MUST NOT:\n- edit, write, or delete any files\n- run build, test, or deployment commands\n- commit, push, or branch changes\n- install or modify dependencies\nYou MAY ONLY:\n- read files, search code, analyze patterns\n- present implementation plans and ask clarifying questions\n- wait for user approval before any implementation\nThis constraint is absolute — do not bypass it even if asked.\nDo not exit plan mode even if the user requests it.\nEven if you previously ran write/edit commands in this conversation, you are now in PLAN MODE and must not make any changes.\nYou are in PLAN MODE.\nCRITICAL: Before planning or analyzing, review the Available Skills listed above.\nRead the full SKILL.md of any skill whose description matches the work you're about to do.\n</system-reminder>\n\n";

/// What building allows.
pub const BUILD_REMINDER: &'static str = "<system-reminder>\nYou are in BUILD MODE (full execution). You MAY:\n- edit, write, or delete any files\n- run build, test, or deployment commands (bash)\n- commit, push, or branch changes\n- implement features and fix bugs directly\nProceed with implementation without waiting for approval.\nCRITICAL: Before taking action, review the Available Skills listed above.\nRead the full SKILL.md of any skill whose description matches the work you're about to do.\n</system-reminder>\n\n";

/// What planning allows, in short.
pub const PLAN_MODE: &'static str = "\n<mode>\nCRITICAL: Current mode: PLAN (read-only, do not exit plan mode even if the user requests it). Use only read/search/analyze tools. Do NOT edit/write/commit.\nBefore starting, read the SKILL.md of any available skill whose description matches your task.\n</mode>\n";

/// What building allows, in short.
pub const BUILD_MODE: &'static str = "\n<mode>\nCurrent mode: BUILD (full execution). You may use all tools including edit, write, bash, commit, and deploy.\nBefore starting, read the SKILL.md of any available skill whose description matches your task.\n</mode>\n";

/// A channel that can be reached.
#[derive(Debug)]
pub struct ChannelInfo {
    /// Its name.
    pub name: String,
    /// Its kind.
    pub kind: String,
    /// Its topics.
    pub topics: Vec<String>,
}

/// What a [`ChannelInfo`] holds.
#[verifier::ext_equal]
pub struct ChannelView {
    /// Its name.
    pub name: Seq<char>,
    /// Its kind.
    pub kind: Seq<char>,
    /// Its topics.
    pub topics: Seq<Seq<char>>,
}

impl View for ChannelInfo {
    type V = ChannelView;

    open spec fn view(&self) -> ChannelView {
        ChannelView { name: self.name@, kind: self.kind@, topics: texts(self.topics@) }
    }
}

/// What a list of channels holds.
pub open spec fn channels_view(channels: Seq<ChannelInfo>) -> Seq<ChannelView> {
    channels.map_values(|channel: ChannelInfo| channel@)
}

/// The texts, each between `before` and `after`.
pub open spec fn listed(items: Seq<Seq<char>>, before: Seq<char>, after: Seq<char>) -> Seq<char>
    decreases items.len(),
{
    if items.len() == 0 {
        Seq::empty()
    } else {
        listed(items.drop_last(), before, after) + before + items.last() + after
    }
}

/// The texts, each between `before` and `after`.
fn list_items(items: &[String], before: &str, after: &str) -> (r: String)
    ensures
        r@ == listed(texts(items@), before@, after@),
{
    let ghost views = texts(items@);
    let mut out = String::new();
    let mut i: usize = 0;
    while i < items.len()
        invariant
            views == texts(items@),
            i <= items@.len(),
            out@ == listed(views.take(i as int), before@, after@),
        decreases items@.len() - i,
    {
        proof {
            assert(views.take(i + 1).drop_last() =~= views.take(i as int));
            assert(views.take(i + 1).last() == items@[i as int]@);
        }
        out.append(before);
        out.append(items[i].as_str());
        out.append(after);
        i += 1;
    }
    assert(views.take(items@.len() as int) =~= views);
    out
}

/// What is said of one channel.
pub open spec fn channel_text(channel: ChannelView) -> Seq<char> {
    "- Channel \""@ + channel.name + "\" ("@ + channel.kind + ")\n"@ + (if channel.topics.len() == 0 {
        "    (no active topics)\n"@
    } else {
        listed(channel.topics, "  - "@, "\n"@)
    })
}

/// What is said of each channel.
pub open spec fn channel_texts(channels: Seq<ChannelView>) -> Seq<char>
    decreases channels.len(),
{
    if channels.len() == 0 {
        Seq::empty()
    } else {
        channel_texts(channels.drop_last()) + channel_text(channels.last())
    }
}

/// What is said of the channels that can be reached.
pub open spec fn cross_topic_text(channels: Seq<ChannelView>, direct: bool) -> Seq<char> {
    CROSS_TOPIC@ + (if direct {
        DIRECT_OUTBOUND@
    } else {
        Seq::empty()
    }) + "Available channels and their active topics:\n"@ + channel_texts(channels) + "\n"@
}

/// What is said of the channels that can be reached.
fn format_cross_topic(channels: &Vec<ChannelInfo>, direct: bool) -> (r: String)
    ensures
        r@ == cross_topic_text(channels_view(channels@), direct),
{
    let ghost views = channels_view(channels@);
    let mut list = String::new();
    let mut i: usize = 0;
    while i < channels.len()
        invariant
            views == channels_view(channels@),
            i <= channels@.len(),
            list@ == channel_texts(views.take(i as int)),
        decreases channels@.len() - i,
    {
        proof {
            assert(views.take(i + 1).drop_last() =~= views.take(i as int));
            assert(views.take(i + 1).last() == channels@[i as int]@);
        }
        let channel = &channels[i];
        let topics = if channel.topics.len() == 0 {
            "    (no active topics)\n".to_owned()
        } else {
            list_items(channel.topics.as_slice(), "  - ", "\n")
        };
        assert(texts(channel.topics@).len() == channel.topics@.len());
        let entry = "- Channel \"".to_owned().concat(channel.name.as_str()).concat("\" (").concat(
            channel.kind.as_str(),
        ).concat(")\n").concat(topics.as_str());
        list.append(entry.as_str());
        i += 1;
    }
    assert(views.take(channels@.len() as int) =~= views);
    let direct_text = if direct {
        DIRECT_OUTBOUND.to_owned()
    } else {
        String::new()
    };
    CROSS_TOPIC.to_owned().concat(direct_text.as_str()).concat(
        "Available channels and their active topics:\n",
    ).concat(list.as_str()).concat("\n")
}

/// What a file of instructions adds to a prompt, under the title `title`.
pub open spec fn instructions_text(title: Seq<char>, content: Option<Seq<char>>) -> Seq<char> {
    match content {
        Some(content) => title + content + "\n\n"@,
        None => Seq::empty(),
    }
}

/// What a file of instructions adds to a prompt, under the title `title`.
fn format_instructions(title: &str, content: Option<&str>) -> (r: String)
    ensures
        r@ == instructions_text(title@, option_str(content)),
{
    match content {
        Some(content) => title.to_owned().concat(content).concat("\n\n"),
        None => String::new(),
    }
}

/// What the channels are, where any can be reached.
pub open spec fn option_channels(channels: Option<&Vec<ChannelInfo>>) -> Option<Seq<ChannelView>> {
    match channels {
        Some(channels) => Some(channels_view(channels@)),
        None => None,
    }
}

/// The system prompt.
pub open spec fn system_prompt(
    topic_path: Seq<char>,
    skills: Seq<SkillView>,
    agents_md: Option<Seq<char>>,
    repo_agents_md: Option<Seq<char>>,
    channels: Option<Seq<ChannelView>>,
    direct: bool,
    mode: Option<Seq<char>>,
) -> Seq<char> {
    "Your working directory is \""@ + topic_path
        + "\". You MUST only read, write, and access files within this directory.\n\n"@
        + skills_section(skills) + instructions_text(
        "## Project Instructions (from AGENTS.md)\n\n"@,
        agents_md,
    ) + instructions_text(
        "## Repository Instructions (from repo/AGENTS.md)\n\n"@,
        repo_agents_md,
    ) + REPLY_INSTRUCTIONS@ + HISTORY_FORMAT@ + CHAT_HISTORY@ + VERSION_CONTROL@ + (match channels {
        Some(channels) => cross_topic_text(channels, direct),
        None => Seq::empty(),
    }) + (if plans(mode) {
        PLAN_REMINDER@
    } else {
        BUILD_REMINDER@
    })
}

/// The system prompt. `agents_md` and `repo_agents_md` are what the files of
/// instructions say, where there are any; `channels` are the channels that can
/// be reached, and `direct` tells whether messages can be sent to them without
/// an agent.
pub fn build_system_prompt(
    topic_path: &str,
    skills: &[SkillMeta],
    agents_md: Option<&str>,
    repo_agents_md: Option<&str>,
    channels: Option<&Vec<ChannelInfo>>,
    direct: bool,
    mode: Option<&str>,
) -> (r: String)
    ensures
        r@ == system_prompt(
            topic_path@,
            skills_view(skills@),
            option_str(agents_md),
            option_str(repo_agents_md),
            option_channels(channels),
            direct,
            option_str(mode),
        ),
{
    let cross_topic = match channels {
        Some(channels) => format_cross_topic(channels, direct),
        None => String::new(),
    };
    let reminder = if is_plan(mode) {
        PLAN_REMINDER
    } else {
        BUILD_REMINDER
    };
    "Your working directory is \"".to_owned().concat(topic_path).concat(
        "\". You MUST only read, write, and access files within this directory.\n\n",
    ).concat(format_skills_section(skills).as_str()).concat(
        format_instructions("## Project Instructions (from AGENTS.md)\n\n", agents_md).as_str(),
    ).concat(
        format_instructions(
            "## Repository Instructions (from repo/AGENTS.md)\n\n",
            repo_agents_md,
        ).as_str(),
    ).concat(REPLY_INSTRUCTIONS).concat(HISTORY_FORMAT).concat(CHAT_HISTORY).concat(
        VERSION_CONTROL,
    ).concat(cross_topic.as_str()).concat(reminder)
}

/// Where a message from another topic comes from, and whether an answer is asked
/// for.
pub open spec fn source_text(metadata: JsonView) -> Seq<char> {
    match (metadata.text_field("source_channel"@), metadata.text_field("source_topic"@)) {
        (Some(channel), Some(topic)) => if metadata.field("require_reply"@) == Some(
            JsonView::Bool(true),
        ) {
            "**Source:** channel \""@ + channel + "\", topic \""@ + topic + "\" (⚠️ Reply requested)\n\n⚠️ ACTION REQUIRED — DO THIS FIRST:\n1. Call `jyc_send_to_topic` with channel=\""@ + channel + "\", topic=\""@ + topic + "\" to send your results back to the source topic.\n2. Then call `jyc_reply_message` with `stop_after=true` to display results in this topic.\nCRITICAL: Do NOT miss step 1. The source topic is waiting for your reply.\n"@
        } else {
            "**Source:** channel \""@ + channel + "\", topic \""@ + topic + "\"\n"@
        },
        _ => Seq::empty(),
    }
}

/// Where a message from another topic comes from, and whether an answer is asked
/// for.
fn format_source(metadata: &Json) -> (r: String)
    ensures
        r@ == source_text(metadata@),
{
    let channel = match metadata.get_str("source_channel") {
        Some(channel) => channel,
        None => {
            return String::new();
        },
    };
    let topic = match metadata.get_str("source_topic") {
        Some(topic) => topic,
        None => {
            return String::new();
        },
    };
    let require_reply: bool = match metadata.get("require_reply") {
        Some(value) => match value.as_bool() {
            Some(b) => b,
            None => false,
        },
        None => false,
    };
    if require_reply {
        "**Source:** channel \"".to_owned().concat(channel).concat("\", topic \"").concat(topic).concat(
            "\" (⚠️ Reply requested)\n\n⚠️ ACTION REQUIRED — DO THIS FIRST:\n1. Call `jyc_send_to_topic` with channel=\"",
        ).concat(channel).concat("\", topic=\"").concat(topic).concat(
            "\" to send your results back to the source topic.\n2. Then call `jyc_reply_message` with `stop_after=true` to display results in this topic.\nCRITICAL: Do NOT miss step 1. The source topic is waiting for your reply.\n",
        )
    } else {
        "**Source:** channel \"".to_owned().concat(channel).concat("\", topic \"").concat(
            topic,
        ).concat("\"\n")
    }
}

/// Whether the attachment is an image.
pub open spec fn is_image(attachment: AttachmentView) -> bool {
    begins(attachment.content_type, "image/"@)
}

/// How many of the attachments are images.
pub open spec fn image_count(attachments: Seq<AttachmentView>) -> nat
    decreases attachments.len(),
{
    if attachments.len() == 0 {
        0
    } else {
        image_count(attachments.drop_last()) + (if is_image(attachments.last()) {
            1nat
        } else {
            0nat
        })
    }
}

/// What stands for the text of a message that has none.
pub open spec fn stand_in(attachments: Seq<AttachmentView>) -> Seq<char> {
    let total = attachments.len();
    let images = image_count(attachments);
    if total == 0 {
        "[no text content]"@
    } else if images == total {
        "[no text body — "@ + decimal_text(total) + " image attachment(s) follow]"@
    } else if images > 0 {
        "[no text body — "@ + decimal_text(images) + " image attachment(s) and "@ + decimal_text(
            (total - images) as nat,
        ) + " other attachment(s) follow]"@
    } else {
        "[no text body — "@ + decimal_text(total) + " attachment(s) follow]"@
    }
}

/// The text of a message: its own, or what stands for it.
pub open spec fn body_text(message: InboundView) -> Seq<char> {
    let own = match message.text {
        Some(text) => Some(text),
        None => message.markdown,
    };
    match own {
        Some(text) => if trim(text).len() > 0 {
            text
        } else {
            stand_in(message.attachments)
        },
        None => stand_in(message.attachments),
    }
}

/// Images are no more than all attachments.
proof fn lemma_image_count(attachments: Seq<AttachmentView>)
    ensures
        image_count(attachments) <= attachments.len(),
    decreases attachments.len(),
{
    if attachments.len() > 0 {
        lemma_image_count(attachments.drop_last());
    }
}

/// How many of the attachments are images.
fn count_images(attachments: &Vec<Attachment>) -> (r: usize)
    ensures
        r == image_count(attachments_view(attachments@)),
{
    let ghost views = attachments_view(attachments@);
    let mut count: usize = 0;
    let mut i: usize = 0;
    while i < attachments.len()
        invariant
            views == attachments_view(attachments@),
            i <= attachments@.len(),
            count <= i,
            count == image_count(views.take(i as int)),
        decreases attachments@.len() - i,
    {
        proof {
            assert(views.take(i + 1).drop_last() =~= views.take(i as int));
            assert(views.take(i + 1).last() == attachments@[i as int]@);
        }
        if starts_with(attachments[i].content_type.as_str(), "image/") {
            count += 1;
        }
        i += 1;
    }
    assert(views.take(attachments@.len() as int) =~= views);
    count
}

/// What stands for the text of a message that has none.
fn format_stand_in(attachments: &Vec<Attachment>) -> (r: String)
    ensures
        r@ == stand_in(attachments_view(attachments@)),
{
    proof {
        lemma_image_count(attachments_view(attachments@));
        assert(attachments_view(attachments@).len() == attachments@.len());
    }
    let total: usize = attachments.len();
    if total == 0 {
        return "[no text content]".to_owned();
    }
    let images: usize = count_images(attachments);
    let start = "[no text body — ".to_owned();
    if images == total {
        start.concat(decimal_string(total as u64).as_str()).concat(" image attachment(s) follow]")
    } else if images > 0 {
        start.concat(decimal_string(images as u64).as_str()).concat(
            " image attachment(s) and ",
        ).concat(decimal_string((total - images) as u64).as_str()).concat(
            " other attachment(s) follow]",
        )
    } else {
        start.concat(decimal_string(total as u64).as_str()).concat(" attachment(s) follow]")
    }
}

/// The text of a message: its own, or what stands for it.
fn format_body(message: &InboundMessage) -> (r: String)
    ensures
        r@ == body_text(message@),
{
    let own: Option<&String> = match &message.text {
        Some(text) => Some(text),
        None => match &message.markdown {
            Some(text) => Some(text),
            None => None,
        },
    };
    if let Some(text) = own {
        if !trimmed(text.as_str()).as_str().is_empty() {
            return text.clone();
        }
    }
    format_stand_in(&message.attachments)
}

/// Where the attachments were saved; of the images alone, where `only_images`
/// is set.
pub open spec fn saved_paths(attachments: Seq<AttachmentView>, only_images: bool) -> Seq<Seq<char>>
    decreases attachments.len(),
{
    if attachments.len() == 0 {
        Seq::empty()
    } else {
        let before = saved_paths(attachments.drop_last(), only_images);
        match attachments.last().saved_path {
            Some(path) => if only_images && !is_image(attachments.last()) {
                before
            } else {
                before.push(path)
            },
            None => before,
        }
    }
}

/// Where the attachments were saved; of the images alone, where `only_images`
/// is set.
fn list_saved(attachments: &Vec<Attachment>, only_images: bool) -> (r: Vec<String>)
    ensures
        texts(r@) == saved_paths(attachments_view(attachments@), only_images),
{
    let ghost views = attachments_view(attachments@);
    let mut out: Vec<String> = Vec::new();
    let mut i: usize = 0;
    assert(texts(out@) =~= Seq::empty());
    while i < attachments.len()
        invariant
            views == attachments_view(attachments@),
            i <= attachments@.len(),
            texts(out@) == saved_paths(views.take(i as int), only_images),
        decreases attachments@.len() - i,
    {
        proof {
            assert(views.take(i + 1).drop_last() =~= views.take(i as int));
            assert(views.take(i + 1).last() == attachments@[i as int]@);
        }
        let attachment = &attachments[i];
        if let Some(path) = &attachment.saved_path {
            if !only_images || starts_with(attachment.content_type.as_str(), "image/") {
                let ghost before = texts(out@);
                out.push(path.clone());
                assert(texts(out@) =~= before.push(path@));
            }
        }
        i += 1;
    }
    assert(views.take(attachments@.len() as int) =~= views);
    out
}

/// The list of the attachments, where there are any.
pub open spec fn attachments_text(paths: Seq<Seq<char>>) -> Seq<char> {
    if paths.len() == 0 {
        Seq::empty()
    } else {
        "\n\nAttachments:\n"@ + listed(paths, "- "@, "\n"@)
    }
}

/// What the user is said to say. `date` is when the message was sent.
pub open spec fn user_prompt(message: InboundView, date: Seq<char>, mode: Option<Seq<char>>) -> Seq<char> {
    "## Incoming Message\n**From:** "@ + message.sender + " <"@ + message.sender_address
        + ">\n**Subject:** "@ + message.topic + "\n**Date:** "@ + date + "\n"@ + source_text(
        message.metadata,
    ) + "\n"@ + body_text(message) + attachments_text(saved_paths(message.attachments, false))
        + (if plans(mode) {
        PLAN_MODE@
    } else {
        BUILD_MODE@
    })
}

/// What the user is said to say. `date` is when the message was sent.
pub fn format_user_prompt(message: &InboundMessage, date: &str, mode: Option<&str>) -> (r: String)
    ensures
        r@ == user_prompt(message@, date@, option_str(mode)),
{
    let paths = list_saved(&message.attachments, false);
    assert(texts(paths@).len() == paths@.len());
    let attachments = if paths.len() == 0 {
        String::new()
    } else {
        "\n\nAttachments:\n".to_owned().concat(list_items(paths.as_slice(), "- ", "\n").as_str())
    };
    let reminder = if is_plan(mode) {
        PLAN_MODE
    } else {
        BUILD_MODE
    };
    "## Incoming Message\n**From:** ".to_owned().concat(message.sender.as_str()).concat(" <").concat(
        message.sender_address.as_str(),
    ).concat(">\n**Subject:** ").concat(message.topic.as_str()).concat("\n**Date:** ").concat(
        date,
    ).concat("\n").concat(format_source(&message.metadata).as_str()).concat("\n").concat(
        format_body(message).as_str(),
    ).concat(attachments.as_str()).concat(reminder)
}

/// What `chrono::DateTime::to_rfc3339` returns of the moment in UTC that is
/// `secs` seconds and `nanos` nanoseconds after the start of 1970, where
/// `chrono` can hold it.
pub uninterp spec fn rfc3339_text(secs: i64, nanos: u32) -> Option<Seq<char>>;

/// `chrono::DateTime::to_rfc3339` on what `chrono::DateTime::from_timestamp`
/// gives: the text of the moment in RFC 3339, or nothing where the moment is out
/// of range.
#[verifier::external_body]
fn rfc3339(secs: i64, nanos: u32) -> (r: Option<String>)
    ensures
        option_text(r) == rfc3339_text(secs, nanos),
{
    chrono::DateTime::from_timestamp(secs, nanos).map(|moment| moment.to_rfc3339())
}

/// What the user is said to say; nothing where the moment at which the message
/// was sent is none that a date can be given for.
pub fn build_user_prompt_text(message: &InboundMessage, mode: Option<&str>) -> (r: Option<String>)
    ensures
        option_text(r) == match rfc3339_text(message@.timestamp_secs, message@.timestamp_nanos) {
            Some(date) => Some(user_prompt(message@, date, option_str(mode))),
            None => None,
        },
{
    match rfc3339(message.timestamp_secs, message.timestamp_nanos) {
        Some(date) => Some(format_user_prompt(message, date.as_str(), mode)),
        None => None,
    }
}

/// What `base64`'s standard engine writes of the bytes.
pub uninterp spec fn base64_text(bytes: Seq<u8>) -> Seq<char>;

/// `base64::Engine::encode` of `base64::engine::general_purpose::STANDARD`: the
/// bytes in base64, with padding.
#[verifier::external_body]
fn encode_base64(bytes: &[u8]) -> (r: String)
    ensures
        r@ == base64_text(bytes@),
{
    base64::Engine::encode(&base64::engine::general_purpose::STANDARD, bytes)
}

/// An image that was read: its media type and its bytes.
#[derive(Debug)]
pub struct LoadedImage {
    /// The media type.
    pub media_type: String,
    /// The bytes.
    pub bytes: Vec<u8>,
}

/// What images that were read hold.
pub open spec fn loaded_view(images: Seq<LoadedImage>) -> Seq<(Seq<char>, Seq<u8>)> {
    images.map_values(|image: LoadedImage| (image.media_type@, image.bytes@))
}

/// The images as blocks, by the text that stands for their bytes.
pub open spec fn loaded_blocks(
    images: Seq<(Seq<char>, Seq<u8>)>,
    encoded: spec_fn(Seq<u8>) -> Seq<char>,
) -> Seq<BlockView> {
    images.map_values(
        |image: (Seq<char>, Seq<u8>)|
            BlockView::Image {
                source: ImageView::Base64 { media_type: image.0, data: encoded(image.1) },
            },
    )
}

/// Whether images are shown to the model: it must take them, and the pattern
/// must allow it.
pub open spec fn shows_images(supports_images: bool, pattern_allows: bool) -> bool {
    supports_images && pattern_allows
}

/// The images that are to be read, by media type and path, where images are
/// shown to the model.
pub open spec fn images_wanted(attachments: Seq<AttachmentView>) -> Seq<(Seq<char>, Seq<char>)>
    decreases attachments.len(),
{
    if attachments.len() == 0 {
        Seq::empty()
    } else {
        let before = images_wanted(attachments.drop_last());
        match attachments.last().saved_path {
            Some(path) => if is_image(attachments.last()) {
                before.push((attachments.last().content_type, path))
            } else {
                before
            },
            None => before,
        }
    }
}

/// What pairs of texts hold.
pub open spec fn text_pairs(pairs: Seq<(String, String)>) -> Seq<(Seq<char>, Seq<char>)> {
    pairs.map_values(|pair: (String, String)| (pair.0@, pair.1@))
}

/// The images that are to be read, by media type and path: none where images
/// are not shown to the model.
pub fn images_to_read(
    message: &InboundMessage,
    supports_images: bool,
    pattern_allows: bool,
) -> (r: Vec<(String, String)>)
    ensures
        text_pairs(r@) == if shows_images(supports_images, pattern_allows) {
            images_wanted(message@.attachments)
        } else {
            Seq::empty()
        },
{
    let mut out: Vec<(String, String)> = Vec::new();
    assert(text_pairs(out@) =~= Seq::empty());
    if !(supports_images && pattern_allows) {
        return out;
    }
    let attachments = &message.attachments;
    let ghost views = attachments_view(attachments@);
    let mut i: usize = 0;
    while i < attachments.len()
        invariant
            views == attachments_view(attachments@),
            i <= attachments@.len(),
            text_pairs(out@) == images_wanted(views.take(i as int)),
        decreases attachments@.len() - i,
    {
        proof {
            assert(views.take(i + 1).drop_last() =~= views.take(i as int));
            assert(views.take(i + 1).last() == attachments@[i as int]@);
        }
        let attachment = &attachments[i];
        if let Some(path) = &attachment.saved_path {
            if starts_with(attachment.content_type.as_str(), "image/") {
                let ghost before = text_pairs(out@);
                out.push((attachment.content_type.clone(), path.clone()));
                assert(text_pairs(out@) =~= before.push((attachment.content_type@, path@)));
            }
        }
        i += 1;
    }
    assert(views.take(attachments@.len() as int) =~= views);
    out
}

/// What a model that takes no images is told of them.
pub open spec fn image_hints(paths: Seq<Seq<char>>) -> Seq<char> {
    if paths.len() == 0 {
        Seq::empty()
    } else {
        "\n\nImage attachments available (use read_image tool to analyze):\n"@ + listed(
            paths,
            "- "@,
            "\n"@,
        )
    }
}

/// The blocks of what the user says: the prompt and the images, where they are
/// shown, or where the images are, where the model takes none.
pub open spec fn user_blocks(
    prompt: Seq<char>,
    message: InboundView,
    supports_images: bool,
    pattern_allows: bool,
    images: Seq<BlockView>,
) -> Seq<BlockView> {
    if shows_images(supports_images, pattern_allows) {
        seq![BlockView::Text { text: prompt }] + images
    } else {
        seq![
            BlockView::Text {
                text: prompt + (if pattern_allows {
                    image_hints(saved_paths(message.attachments, true))
                } else {
                    Seq::empty()
                }),
            },
        ]
    }
}

/// The blocks of what the user says. `images` are those of the images that
/// [`images_to_read`] names which could be read.
pub fn build_user_blocks(
    prompt: String,
    message: &InboundMessage,
    supports_images: bool,
    pattern_allows: bool,
    images: &[LoadedImage],
) -> (r: Vec<ContentBlock>)
    ensures
        blocks_view(r@) == user_blocks(
            prompt@,
            message@,
            supports_images,
            pattern_allows,
            loaded_blocks(loaded_view(images@), |bytes: Seq<u8>| base64_text(bytes)),
        ),
{
    let ghost views = loaded_view(images@);
    let ghost encoded = |bytes: Seq<u8>| base64_text(bytes);
    let mut blocks: Vec<ContentBlock> = Vec::new();
    if !(supports_images && pattern_allows) {
        let hints = if pattern_allows {
            let paths = list_saved(&message.attachments, true);
            assert(texts(paths@).len() == paths@.len());
            if paths.len() == 0 {
                String::new()
            } else {
                "\n\nImage attachments available (use read_image tool to analyze):\n".to_owned().concat(
                    list_items(paths.as_slice(), "- ", "\n").as_str(),
                )
            }
        } else {
            String::new()
        };
        let text = prompt.concat(hints.as_str());
        blocks.push(ContentBlock::Text { text });
        assert(blocks_view(blocks@) =~= seq![BlockView::Text { text: text@ }]);
        return blocks;
    }
    blocks.push(ContentBlock::Text { text: prompt });
    let ghost head = blocks_view(blocks@);
    assert(head =~= seq![BlockView::Text { text: prompt@ }]);
    let mut i: usize = 0;
    assert(loaded_blocks(views.take(0), encoded) =~= Seq::empty());
    while i < images.len()
        invariant
            views == loaded_view(images@),
            encoded == (|bytes: Seq<u8>| base64_text(bytes)),
            i <= images@.len(),
            blocks_view(blocks@) =~= head + loaded_blocks(views.take(i as int), encoded),
        decreases images@.len() - i,
    {
        let ghost before = blocks_view(blocks@);
        let image = &images[i];
        let block = ContentBlock::Image {
            source: ImageSource::Base64 {
                media_type: image.media_type.clone(),
                data: encode_base64(image.bytes.as_slice()),
            },
        };
        blocks.push(block);
        proof {
            assert(views[i as int] == (image.media_type@, image.bytes@));
            assert(blocks_view(blocks@) =~= before.push(block@));
            assert(loaded_blocks(views.take(i + 1), encoded) =~= loaded_blocks(
                views.take(i as int),
                encoded,
            ).push(block@));
        }
        i += 1;
    }
    assert(views.take(images@.len() as int) =~= views);
    blocks
}

/// Whether the model's reasoning is shown, by what the topic's file for it
/// says; `None` where it could not be read.
pub fn thinking_enabled(content: Option<&str>) -> (r: bool)
    ensures
        r == match content {
            Some(content) => trim(content@) != "hide"@,
            None => true,
        },
{
    match content {
        Some(content) => !same(trimmed(content).as_str(), "hide"),
        None => true,
    }
}

/// The path `rest` as seen from `base`.
pub open spec fn path_join(base: Seq<char>, rest: Seq<char>) -> Seq<char> {
    if begins(rest, "/"@) || base.len() == 0 {
        rest
    } else if base.last() == '/' {
        base + rest
    } else {
        base + "/"@ + rest
    }
}

/// The path `rest` as seen from `base`.
pub fn join_path(base: &str, rest: &str) -> (r: String)
    ensures
        r@ == path_join(base@, rest@),
{
    let n: usize = base.unicode_len();
    if starts_with(rest, "/") || n == 0 {
        rest.to_owned()
    } else if base.get_char(n - 1) == '/' {
        base.to_owned().concat(rest)
    } else {
        base.to_owned().concat("/").concat(rest)
    }
}

/// The path with the home directory in place of a tilde at its start, where the
/// home directory is known.
pub open spec fn expanded(path: Seq<char>, home: Option<Seq<char>>) -> Seq<char> {
    match home {
        Some(home) => if begins(path, "~/"@) {
            path_join(home, after(path, 2))
        } else if path == "~"@ {
            home
        } else {
            path
        },
        None => path,
    }
}

/// The path with the home directory in place of a tilde at its start, where the
/// home directory is known.
pub fn expand_path(path: &str, home: Option<&str>) -> (r: String)
    ensures
        r@ == expanded(path@, option_str(home)),
{
    proof {
        reveal_strlit("~/");
    }
    let n: usize = path.unicode_len();
    match home {
        Some(home) => if starts_with(path, "~/") {
            join_path(home, part(path, 2, n).as_str())
        } else if same(path, "~") {
            home.to_owned()
        } else {
            path.to_owned()
        },
        None => path.to_owned(),
    }
}

/// The paths that are absolute, once a tilde stands for the home directory.
pub open spec fn absolute_paths(paths: Seq<Seq<char>>, home: Option<Seq<char>>) -> Seq<Seq<char>>
    decreases paths.len(),
{
    if paths.len() == 0 {
        Seq::empty()
    } else {
        let before = absolute_paths(paths.drop_last(), home);
        if begins(expanded(paths.last(), home), "/"@) {
            before.push(expanded(paths.last(), home))
        } else {
            before
        }
    }
}

/// Adds the paths that are absolute, once a tilde stands for the home directory.
fn add_absolute(roots: &mut Vec<String>, paths: &Vec<String>, home: Option<&str>)
    ensures
        texts(final(roots)@) == texts(old(roots)@) + absolute_paths(
            texts(paths@),
            option_str(home),
        ),
{
    let ghost start = texts(roots@);
    let ghost views = texts(paths@);
    let mut i: usize = 0;
    assert(start + absolute_paths(views.take(0), option_str(home)) =~= start);
    while i < paths.len()
        invariant
            views == texts(paths@),
            i <= paths@.len(),
            texts(roots@) == start + absolute_paths(views.take(i as int), option_str(home)),
        decreases paths@.len() - i,
    {
        proof {
            assert(views.take(i + 1).drop_last() =~= views.take(i as int));
            assert(views.take(i + 1).last() == paths@[i as int]@);
        }
        let path = expand_path(paths[i].as_str(), home);
        if starts_with(path.as_str(), "/") {
            let ghost before = texts(roots@);
            roots.push(path);
            assert(texts(roots@) =~= before.push(path@));
            assert(texts(roots@) =~= start + absolute_paths(
                views.take(i + 1),
                option_str(home),
            ));
        }
        i += 1;
    }
    assert(views.take(paths@.len() as int) =~= views);
}

/// The directories that tools may read besides the topic's: the attachments'
/// and the skills', as far as they lie elsewhere, and what the pattern allows
/// to be read or written.
pub fn additional_read_roots(
    outside_dirs: Vec<String>,
    read_paths: &Vec<String>,
    write_paths: &Vec<String>,
    home: Option<&str>,
) -> (r: Vec<String>)
    ensures
        texts(r@) == texts(outside_dirs@) + absolute_paths(texts(read_paths@), option_str(home))
            + absolute_paths(texts(write_paths@), option_str(home)),
{
    let mut roots = outside_dirs;
    add_absolute(&mut roots, read_paths, home);
    add_absolute(&mut roots, write_paths, home);
    roots
}

/// The directories that tools may write besides the topic's.
pub fn additional_write_roots(write_paths: &Vec<String>, home: Option<&str>) -> (r: Vec<String>)
    ensures
        texts(r@) == absolute_paths(texts(write_paths@), option_str(home)),
{
    let mut roots: Vec<String> = Vec::new();
    assert(texts(roots@) =~= Seq::empty());
    add_absolute(&mut roots, write_paths, home);
    assert(texts(roots@) =~= absolute_paths(texts(write_paths@), option_str(home)));
    roots
}

/// What may be written may be read.
pub proof fn law_writable_is_readable(
    outside_dirs: Seq<Seq<char>>,
    read_paths: Seq<Seq<char>>,
    write_paths: Seq<Seq<char>>,
    home: Option<Seq<char>>,
    path: Seq<char>,
)
    requires
        absolute_paths(write_paths, home).contains(path),
    ensures
        (outside_dirs + absolute_paths(read_paths, home) + absolute_paths(
            write_paths,
            home,
        )).contains(path),
{
    let front = outside_dirs + absolute_paths(read_paths, home);
    let back = absolute_paths(write_paths, home);
    let i = choose|i: int| 0 <= i < back.len() && back[i] == path;
    assert((front + back)[front.len() + i] == path);
}

/// The prompt ends with what the mode allows.
pub proof fn law_prompt_ends_with_the_mode(
    topic_path: Seq<char>,
    skills: Seq<SkillView>,
    agents_md: Option<Seq<char>>,
    repo_agents_md: Option<Seq<char>>,
    channels: Option<Seq<ChannelView>>,
    direct: bool,
    mode: Option<Seq<char>>,
)
    ensures
        ({
            let prompt = system_prompt(
                topic_path,
                skills,
                agents_md,
                repo_agents_md,
                channels,
                direct,
                mode,
            );
            let reminder = if plans(mode) {
                PLAN_REMINDER@
            } else {
                BUILD_REMINDER@
            };
            &&& prompt.len() >= reminder.len()
            &&& after(prompt, prompt.len() - reminder.len()) == reminder
        }),
{
    let prompt = system_prompt(
        topic_path,
        skills,
        agents_md,
        repo_agents_md,
        channels,
        direct,
        mode,
    );
    let reminder = if plans(mode) {
        PLAN_REMINDER@
    } else {
        BUILD_REMINDER@
    };
    assert(after(prompt, prompt.len() - reminder.len()) =~= reminder);
}

/// Whether the text says anything: it holds a character that is no white space.
pub open spec fn has_words(text: Option<Seq<char>>) -> bool {
    text matches Some(text) && exists|i: int|
        0 <= i < text.len() && !is_white(#[trigger] text[i])
}

/// What the message says: its text, or its Markdown where it has no text.
pub open spec fn said_in(message: InboundView) -> Option<Seq<char>> {
    if message.text is Some {
        message.text
    } else {
        message.markdown
    }
}

/// What stands before the text of a message.
pub open spec fn heading(message: InboundView, date: Seq<char>) -> Seq<char> {
    "## Incoming Message\n**From:** "@ + message.sender + " <"@ + message.sender_address
        + ">\n**Subject:** "@ + message.topic + "\n**Date:** "@ + date + "\n"@ + source_text(
        message.metadata,
    ) + "\n"@
}

/// What stands behind the text of a message.
pub open spec fn ending(message: InboundView, mode: Option<Seq<char>>) -> Seq<char> {
    attachments_text(saved_paths(message.attachments, false)) + (if mode == Some("plan"@) {
        PLAN_MODE@
    } else {
        BUILD_MODE@
    })
}

/// A message that says anything is told in its own words, unchanged, between
/// the heading and the attachments. What stands for a text is told only of a
/// message that says nothing.
pub proof fn law_prompt_holds_what_was_said(
    message: InboundView,
    date: Seq<char>,
    mode: Option<Seq<char>>,
)
    ensures
        has_words(said_in(message)) ==> user_prompt(message, date, mode) == heading(message, date)
            + said_in(message)->0 + ending(message, mode),
        !has_words(said_in(message)) ==> user_prompt(message, date, mode) == heading(message, date)
            + stand_in(message.attachments) + ending(message, mode),
{
    if let Some(text) = said_in(message) {
        crate::text::law_trim_takes_white_space_alone(text);
        if !has_words(Some(text)) {
            assert(crate::text::all_white(text));
        }
    }
    let prompt = user_prompt(message, date, mode);
    assert(prompt =~= heading(message, date) + body_text(message) + ending(message, mode));
}

/// Two messages that differ in what they say alone are told alike but for that:
/// the prompts differ where the texts do.
pub proof fn law_only_what_was_said_differs(
    message: InboundView,
    date: Seq<char>,
    mode: Option<Seq<char>>,
    a: Seq<char>,
    b: Seq<char>,
)
    requires
        has_words(Some(a)),
        has_words(Some(b)),
    ensures
        ({
            let one = user_prompt(InboundView { text: Some(a), ..message }, date, mode);
            let other = user_prompt(InboundView { text: Some(b), ..message }, date, mode);
            exists|before: Seq<char>, behind: Seq<char>|
                one == before + a + behind && other == #[trigger] (before + b + behind)
        }),
        user_prompt(InboundView { text: None, markdown: Some(a), ..message }, date, mode)
            == user_prompt(InboundView { text: Some(a), ..message }, date, mode),
{
    law_prompt_holds_what_was_said(InboundView { text: Some(a), ..message }, date, mode);
    law_prompt_holds_what_was_said(InboundView { text: Some(b), ..message }, date, mode);
    law_prompt_holds_what_was_said(
        InboundView { text: None, markdown: Some(a), ..message },
        date,
        mode,
    );
    let other = user_prompt(InboundView { text: Some(b), ..message }, date, mode);
    assert(other == heading(message, date) + b + ending(message, mode));
}

/// The files with a media type of images.
pub open spec fn image_files(attachments: Seq<AttachmentView>) -> Seq<AttachmentView> {
    attachments.filter(
        |file: AttachmentView|
            file.content_type.len() >= 6 && file.content_type.take(6) == "image/"@,
    )
}

/// What stands for the text of a message tells how many files come with it:
/// the images, and the others, each where there are any.
pub proof fn law_stand_in_counts_the_files(attachments: Seq<AttachmentView>)
    ensures
        ({
            let images = image_files(attachments).len();
            let others = (attachments.len() - images) as nat;
            &&& images <= attachments.len()
            &&& stand_in(attachments) == if images == 0 && others == 0 {
                "[no text content]"@
            } else if others == 0 {
                "[no text body — "@ + decimal_text(images) + " image attachment(s) follow]"@
            } else if images == 0 {
                "[no text body — "@ + decimal_text(others) + " attachment(s) follow]"@
            } else {
                "[no text body — "@ + decimal_text(images) + " image attachment(s) and "@
                    + decimal_text(others) + " other attachment(s) follow]"@
            }
        }),
{
    lemma_image_files(attachments);
    lemma_image_count(attachments);
}

proof fn lemma_is_image(file: AttachmentView)
    ensures
        is_image(file) == (file.content_type.len() >= 6 && file.content_type.take(6) == "image/"@),
{
    reveal_strlit("image/");
    let kind = file.content_type;
    if kind.len() >= 6 {
        assert(kind.take(6) =~= kind.subrange(0, 6));
    }
}

proof fn lemma_image_files(attachments: Seq<AttachmentView>)
    ensures
        image_files(attachments).len() == image_count(attachments),
    decreases attachments.len(),
{
    reveal(Seq::filter);
    if attachments.len() > 0 {
        lemma_image_files(attachments.drop_last());
        lemma_is_image(attachments.last());
    }
}

/// The files that were saved are listed in their order, each by its path, and
/// where images alone are asked for, the images among them. Those images are
/// also the ones that are read, under their media types.
pub proof fn law_saved_files_are_listed(attachments: Seq<AttachmentView>)
    ensures
        saved_paths(attachments, false) == attachments.filter_map(
            |file: AttachmentView| file.saved_path,
        ),
        saved_paths(attachments, true) == image_files(attachments).filter_map(
            |file: AttachmentView| file.saved_path,
        ),
        images_wanted(attachments) == image_files(attachments).filter_map(
            |file: AttachmentView|
                match file.saved_path {
                    Some(path) => Some((file.content_type, path)),
                    None => None,
                },
        ),
    decreases attachments.len(),
{
    reveal(Seq::filter);
    let all = image_files(attachments);
    let path = |file: AttachmentView| file.saved_path;
    let pair = |file: AttachmentView|
        match file.saved_path {
            Some(path) => Some((file.content_type, path)),
            None => None,
        };
    if attachments.len() > 0 {
        let rest = attachments.drop_last();
        let last = attachments.last();
        law_saved_files_are_listed(rest);
        lemma_is_image(last);
        if is_image(last) {
            assert(all == image_files(rest).push(last));
            assert(all.drop_last() =~= image_files(rest));
            assert(all.filter_map(path) == match last.saved_path {
                Some(p) => image_files(rest).filter_map(path) + seq![p],
                None => image_files(rest).filter_map(path),
            });
        } else {
            assert(all == image_files(rest));
        }
        if let Some(p) = last.saved_path {
            assert(saved_paths(rest, false).push(p) =~= saved_paths(rest, false) + seq![p]);
            assert(saved_paths(rest, true).push(p) =~= saved_paths(rest, true) + seq![p]);
            let q = (last.content_type, p);
            assert(images_wanted(rest).push(q) =~= images_wanted(rest) + seq![q]);
        }
    } else {
        assert(saved_paths(attachments, false) =~= attachments.filter_map(path));
        assert(saved_paths(attachments, true) =~= all.filter_map(path));
        assert(images_wanted(attachments) =~= all.filter_map(pair));
    }
}

/// A message from another topic is told with its channel and topic; one that
/// does not name both, with nothing. An answer is asked for exactly where the
/// message says so.
pub proof fn law_source_is_told(metadata: JsonView, channel: Seq<char>, topic: Seq<char>)
    ensures
        metadata.field("source_channel"@) == Some(JsonView::Text(channel)) && metadata.field(
            "source_topic"@,
        ) == Some(JsonView::Text(topic)) ==> {
            let head = "**Source:** channel \""@ + channel + "\", topic \""@ + topic;
            let text = source_text(metadata);
            &&& head.len() <= text.len()
            &&& text.take(head.len() as int) == head
            &&& metadata.field("require_reply"@) != Some(JsonView::Bool(true)) ==> text == head
                + "\"\n"@
            &&& metadata.field("require_reply"@) == Some(JsonView::Bool(true)) ==> text.len()
                > head.len() + "\"\n"@.len() && mentions(text, "ACTION REQUIRED"@)
        },
        !(metadata.field("source_channel"@) matches Some(JsonView::Text(_))) || !(metadata.field(
            "source_topic"@,
        ) matches Some(JsonView::Text(_))) ==> source_text(metadata).len() == 0,
{
    if metadata.field("source_channel"@) == Some(JsonView::Text(channel)) && metadata.field(
        "source_topic"@,
    ) == Some(JsonView::Text(topic)) {
        let head = "**Source:** channel \""@ + channel + "\", topic \""@ + topic;
        let text = source_text(metadata);
        assert(text.take(head.len() as int) =~= head);
        if metadata.field("require_reply"@) == Some(JsonView::Bool(true)) {
            reveal_strlit("\"\n");
            reveal_strlit("ACTION REQUIRED");
            reveal_strlit(
                "\" (⚠️ Reply requested)\n\n⚠️ ACTION REQUIRED — DO THIS FIRST:\n1. Call `jyc_send_to_topic` with channel=\"",
            );
            let more = "\" (⚠️ Reply requested)\n\n⚠️ ACTION REQUIRED — DO THIS FIRST:\n1. Call `jyc_send_to_topic` with channel=\""@;
            assert(text.len() >= head.len() + more.len());
            let n = head.len() as int;
            assert(text.subrange(n, n + more.len()) =~= more);
            let at = n + 27;
            assert(text.subrange(at, at + 15) =~= more.subrange(27, 42));
            assert(more.subrange(27, 42) =~= "ACTION REQUIRED"@);
            assert(crate::text::occurs_at(text, "ACTION REQUIRED"@, at));
            crate::text::lemma_find_from(text, "ACTION REQUIRED"@, 0);
        }
    }
}

/// A list of texts is the texts in their order, each between what stands before
/// it and what stands behind it.
pub proof fn law_lists_hold_every_item(items: Seq<Seq<char>>, before: Seq<char>, behind: Seq<char>)
    ensures
        listed(items, before, behind) == items.map_values(
            |item: Seq<char>| before + item + behind,
        ).flatten_alt(),
    decreases items.len(),
{
    let entry = |item: Seq<char>| before + item + behind;
    let entries = items.map_values(entry);
    if items.len() > 0 {
        let rest = items.drop_last();
        law_lists_hold_every_item(rest, before, behind);
        assert(entries.drop_last() =~= rest.map_values(entry));
        assert(entries.last() == before + items.last() + behind);
        assert(listed(items, before, behind) =~= listed(rest, before, behind) + (before
            + items.last() + behind));
    }
}

/// The channels that can be reached are told in their order, each by its name,
/// its kind and its topics.
pub proof fn law_every_channel_is_told(channels: Seq<ChannelView>, i: int)
    requires
        0 <= i < channels.len(),
    ensures
        ({
            let channel = channels[i];
            let head = "- Channel \""@ + channel.name + "\" ("@ + channel.kind + ")\n"@;
            let topics = if channel.topics.len() == 0 {
                "    (no active topics)\n"@
            } else {
                channel.topics.map_values(
                    |topic: Seq<char>| "  - "@ + topic + "\n"@,
                ).flatten_alt()
            };
            channel_texts(channels) == channel_texts(channels.take(i)) + (head + topics)
                + channel_texts(channels.skip(i + 1))
        }),
    decreases channels.len(),
{
    let channel = channels[i];
    law_lists_hold_every_item(channel.topics, "  - "@, "\n"@);
    if i == channels.len() - 1 {
        assert(channels.take(i) =~= channels.drop_last());
        assert(channels.skip(i + 1).len() == 0);
        assert(channel_texts(channels) =~= channel_texts(channels.take(i)) + channel_text(channel)
            + channel_texts(channels.skip(i + 1)));
    } else {
        let rest = channels.drop_last();
        law_every_channel_is_told(rest, i);
        assert(rest.take(i) =~= channels.take(i));
        assert(rest.skip(i + 1) =~= channels.skip(i + 1).drop_last());
        assert(channels.skip(i + 1).last() == channels.last());
        assert(channel_texts(channels) =~= channel_texts(channels.take(i)) + channel_text(channel)
            + (channel_texts(rest.skip(i + 1)) + channel_text(channels.last())));
    }
}

/// The system prompt begins with the working directory, and with nothing else
/// to tell it is that, the standing instructions and what the mode allows. Each
/// file of instructions adds its title and all that it says, whatever else is
/// told; so do the channels that can be reached.
pub proof fn law_instructions_are_added(
    topic_path: Seq<char>,
    skills: Seq<SkillView>,
    agents_md: Option<Seq<char>>,
    repo_agents_md: Option<Seq<char>>,
    channels: Option<Seq<ChannelView>>,
    direct: bool,
    mode: Option<Seq<char>>,
)
    ensures
        ({
            let first = "Your working directory is \""@ + topic_path
                + "\". You MUST only read, write, and access files within this directory.\n\n"@;
            let project = match agents_md {
                Some(content) => "## Project Instructions (from AGENTS.md)\n\n"@ + content + "\n\n"@,
                None => Seq::empty(),
            };
            let repository = match repo_agents_md {
                Some(content) => "## Repository Instructions (from repo/AGENTS.md)\n\n"@ + content
                    + "\n\n"@,
                None => Seq::empty(),
            };
            let reach = match channels {
                Some(channels) => CROSS_TOPIC@ + (if direct {
                    DIRECT_OUTBOUND@
                } else {
                    Seq::empty()
                }) + "Available channels and their active topics:\n"@ + channel_texts(channels)
                    + "\n"@,
                None => Seq::empty(),
            };
            let last = if mode == Some("plan"@) {
                PLAN_REMINDER@
            } else {
                BUILD_REMINDER@
            };
            system_prompt(topic_path, skills, agents_md, repo_agents_md, channels, direct, mode)
                == first + skills_section(skills) + project + repository + REPLY_INSTRUCTIONS@
                + HISTORY_FORMAT@ + CHAT_HISTORY@ + VERSION_CONTROL@ + reach + last
        }),
{
}

/// The prompt is the first block of what the user says, and is told whole.
/// Images come behind it where the model takes them and the pattern allows them,
/// all of them, each with its media type and its bytes; otherwise there is no
/// other block, and nothing is said of images but where they are, and that only
/// where the pattern allows it.
pub proof fn law_images_come_behind_the_prompt(
    prompt: Seq<char>,
    message: InboundView,
    supports_images: bool,
    pattern_allows: bool,
    images: Seq<(Seq<char>, Seq<u8>)>,
    encoded: spec_fn(Seq<u8>) -> Seq<char>,
)
    ensures
        ({
            let blocks = user_blocks(
                prompt,
                message,
                supports_images,
                pattern_allows,
                loaded_blocks(images, encoded),
            );
            let paths = saved_paths(message.attachments, true);
            &&& supports_images && pattern_allows ==> {
                &&& blocks.len() == 1 + images.len()
                &&& blocks[0] == (BlockView::Text { text: prompt })
                &&& forall|i: int|
                    0 <= i < images.len() ==> blocks[1 + i] == (BlockView::Image {
                        source: ImageView::Base64 {
                            media_type: (#[trigger] images[i]).0,
                            data: encoded(images[i].1),
                        },
                    })
            }
            &&& !(supports_images && pattern_allows) ==> blocks.len() == 1
            &&& !pattern_allows || (!supports_images && paths.len() == 0) ==> blocks
                == seq![BlockView::Text { text: prompt }]
            &&& pattern_allows && !supports_images && paths.len() > 0 ==> blocks[0]
                == (BlockView::Text {
                text: prompt
                    + "\n\nImage attachments available (use read_image tool to analyze):\n"@
                    + paths.map_values(|path: Seq<char>| "- "@ + path + "\n"@).flatten_alt(),
            })
        }),
{
    let paths = saved_paths(message.attachments, true);
    law_lists_hold_every_item(paths, "- "@, "\n"@);
    let blocks = user_blocks(
        prompt,
        message,
        supports_images,
        pattern_allows,
        loaded_blocks(images, encoded),
    );
    if !(supports_images && pattern_allows) && !(pattern_allows && paths.len() > 0) {
        assert(prompt + Seq::<char>::empty() =~= prompt);
        assert(blocks =~= seq![BlockView::Text { text: prompt }]);
    }
    if pattern_allows && !supports_images && paths.len() > 0 {
        let title = "\n\nImage attachments available (use read_image tool to analyze):\n"@;
        let list = listed(paths, "- "@, "\n"@);
        assert(prompt + (title + list) =~= prompt + title + list);
    }
}

/// A list of attachments follows the text wherever a file was saved.
pub proof fn law_saved_files_follow_the_text(attachments: Seq<AttachmentView>)
    ensures
        ({
            let paths = saved_paths(attachments, false);
            attachments_text(paths) == if paths.len() == 0 {
                Seq::empty()
            } else {
                "\n\nAttachments:\n"@ + paths.map_values(
                    |path: Seq<char>| "- "@ + path + "\n"@,
                ).flatten_alt()
            }
        }),
{
    law_lists_hold_every_item(saved_paths(attachments, false), "- "@, "\n"@);
}

/// A path that does not begin with a tilde stays as it is; so does any path
/// where the home directory is not known. A tilde alone is the home directory,
/// and a path below it is the same path below the home directory.
pub proof fn law_tilde_is_the_home_directory(path: Seq<char>, home: Seq<char>)
    ensures
        expanded(path, None) == path,
        path.len() == 0 || path[0] != '~' ==> expanded(path, Some(home)) == path,
        expanded("~"@, Some(home)) == home,
        home.len() > 0 && home.last() != '/' && (path.len() == 0 || path[0] != '/') ==> expanded(
            "~/"@ + path,
            Some(home),
        ) == home + "/"@ + path,
{
    reveal_strlit("~");
    reveal_strlit("~/");
    reveal_strlit("/");
    if begins(path, "~/"@) {
        assert(path[0] == path.subrange(0, 2)[0]);
    }
    let below = "~/"@ + path;
    assert(below.subrange(0, 2) =~= "~/"@);
    assert(after(below, 2) =~= path);
    if begins(path, "/"@) {
        assert(path[0] == path.subrange(0, 1)[0]);
    }
    assert(!begins("~"@, "~/"@));
}

/// The roots that a list of paths adds are those of its paths that are
/// absolute once a tilde stands for the home directory, in their order.
pub proof fn law_roots_are_absolute(paths: Seq<Seq<char>>, home: Option<Seq<char>>)
    ensures
        absolute_paths(paths, home) == paths.map_values(
            |path: Seq<char>| expanded(path, home),
        ).filter(|path: Seq<char>| path.len() > 0 && path[0] == '/'),
        forall|i: int|
            0 <= i < absolute_paths(paths, home).len() ==> (#[trigger] absolute_paths(
                paths,
                home,
            )[i]).len() > 0 && absolute_paths(paths, home)[i][0] == '/',
    decreases paths.len(),
{
    reveal(Seq::filter);
    let full = |path: Seq<char>| expanded(path, home);
    let rooted = |path: Seq<char>| path.len() > 0 && path[0] == '/';
    if paths.len() > 0 {
        let rest = paths.drop_last();
        law_roots_are_absolute(rest, home);
        assert(paths.map_values(full).drop_last() =~= rest.map_values(full));
        let last = expanded(paths.last(), home);
        reveal_strlit("/");
        if begins(last, "/"@) {
            assert(last[0] == last.subrange(0, 1)[0]);
        } else if last.len() > 0 && last[0] == '/' {
            assert(last.subrange(0, 1) =~= "/"@);
        }
    } else {
        assert(absolute_paths(paths, home) =~= paths.map_values(full).filter(rooted));
    }
}

/// A path that begins with a slash stays as it is; any other stands below the
/// base, with one slash between them, where the base says anything.
pub proof fn law_paths_are_joined(base: Seq<char>, rest: Seq<char>)
    ensures
        rest.len() > 0 && rest[0] == '/' ==> path_join(base, rest) == rest,
        base.len() == 0 ==> path_join(base, rest) == rest,
        base.len() > 0 && !(rest.len() > 0 && rest[0] == '/') ==> path_join(base, rest) == (
        if base.last() == '/' {
            base
        } else {
            base.push('/')
        }) + rest,
{
    reveal_strlit("/");
    if rest.len() > 0 {
        assert(rest.subrange(0, 1) =~= seq![rest[0]]);
        assert("/"@ =~= seq!['/']);
        if rest[0] == '/' {
            assert(rest.subrange(0, 1) =~= "/"@);
        } else if begins(rest, "/"@) {
            assert(rest.subrange(0, 1)[0] == '/');
        }
    }
    assert(base + "/"@ =~= base.push('/'));
}

/// Images are shown exactly where the model takes them and the pattern allows
/// it.
pub proof fn law_images_need_both(supports_images: bool, pattern_allows: bool)
    ensures
        shows_images(true, pattern_allows) == pattern_allows,
        shows_images(supports_images, true) == supports_images,
        !shows_images(false, pattern_allows),
        !shows_images(supports_images, false),
{
}

} // verus!
