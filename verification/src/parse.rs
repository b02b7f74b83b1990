//! Discord's messages, commands and interactions as channel messages.

use crate::json;
use crate::json::{Json, Tree};
use crate::text;
use crate::types;
use crate::types::{
    ChannelContent, ChannelMessage, ChannelType, ChannelUser, Incoming, MessageView, Timestamp,
    UserView,
};
use vstd::prelude::*;
use vstd::slice::slice_subrange;

verus! {

// ---------------------------------------------------------------- time

/// The seconds since the Unix epoch, and the nanoseconds within the second, of the instant that
/// `chrono::DateTime::parse_from_rfc3339` reads from a text; `None` where it reports an error.
pub uninterp spec fn rfc3339(text: Seq<char>) -> Option<(i64, u32)>;

/// `chrono::DateTime::parse_from_rfc3339`: reads a date and time. Only that the outcome is a
/// function of the text is claimed.
#[verifier::external_body]
fn parse_rfc3339(text: &str) -> (r: Option<(i64, u32)>)
    ensures
        r == rfc3339(text@),
{
    match chrono::DateTime::parse_from_rfc3339(text) {
        Ok(t) => Some((t.timestamp(), t.timestamp_subsec_nanos())),
        Err(_) => None,
    }
}

/// `chrono::Utc::now`: the current time. The nanoseconds lie within the second; nothing else is
/// claimed of the outcome. The call panics on a machine whose clock stands before 1970.
#[verifier::external_body]
pub(crate) fn utc_now() -> (r: Timestamp)
    ensures
        r.nanos < 1_000_000_000,
{
    let t = chrono::Utc::now();
    Timestamp { secs: t.timestamp(), nanos: t.timestamp_subsec_nanos() }
}

/// An optional text gives an instant.
pub open spec fn gives_instant(text: Option<Seq<char>>) -> bool {
    match text {
        Some(s) => rfc3339(s) is Some,
        None => false,
    }
}

/// The instant that an optional text gives, `now` where it gives none.
pub open spec fn instant(text: Option<Seq<char>>, now: Timestamp) -> Timestamp {
    match text {
        Some(s) => match rfc3339(s) {
            Some((secs, nanos)) => Timestamp { secs, nanos },
            None => now,
        },
        None => now,
    }
}

fn instant_or(text: Option<&str>, now: Timestamp) -> (r: Timestamp)
    ensures
        r == instant(
            match text {
                Some(s) => Some(s@),
                None => None,
            },
            now,
        ),
{
    match text {
        Some(s) => match parse_rfc3339(s) {
            Some((secs, nanos)) => Timestamp { secs, nanos },
            None => now,
        },
        None => now,
    }
}

// ---------------------------------------------------------------- attachments

/// The attachments of a message.
pub open spec fn attachments(d: Tree) -> Seq<Tree> {
    match d.array_at("attachments"@) {
        Some(items) => items,
        None => Seq::empty(),
    }
}

/// The size in bytes that an attachment gives.
pub open spec fn attachment_size(att: Tree) -> u64 {
    match att.u64_at("size"@) {
        Some(n) => n,
        None => 0,
    }
}

/// The size of each attachment of a message, in bytes.
pub fn attachment_sizes(d: &Json) -> (r: Vec<u64>)
    ensures
        r@ == attachments(d@).map_values(|att: Tree| attachment_size(att)),
{
    let mut out: Vec<u64> = Vec::new();
    let ghost want = attachments(d@).map_values(|att: Tree| attachment_size(att));
    if let Some(items) = d.array_at("attachments") {
        proof {
            json::lemma_trees(items@);
        }
        let mut i: usize = 0;
        while i < items.len()
            invariant
                i <= items@.len(),
                attachments(d@) == json::trees(items@),
                json::trees(items@).len() == items@.len(),
                forall|k: int|
                    0 <= k < items@.len() ==> (#[trigger] json::trees(items@)[k]) == items@[k]@,
                want == attachments(d@).map_values(|att: Tree| attachment_size(att)),
                out@ =~= want.take(i as int),
            decreases items@.len() - i,
        {
            let n: u64 = match items[i].u64_at("size") {
                Some(n) => n,
                None => 0,
            };
            assert(want[i as int] == attachment_size(items@[i as int]@));
            out.push(n);
            i += 1;
        }
    }
    assert(out@ =~= want);
    out
}

/// The unit in which a size is shown.
#[derive(Clone, Copy, Debug, PartialEq, Eq, Structural)]
pub enum SizeUnit {
    Bytes,
    Kilobytes,
    Megabytes,
}

/// The unit in which a size is shown: megabytes over a million bytes, kilobytes over a thousand.
pub open spec fn unit_of(size: u64) -> SizeUnit {
    if size > 1_000_000 {
        SizeUnit::Megabytes
    } else if size > 1000 {
        SizeUnit::Kilobytes
    } else {
        SizeUnit::Bytes
    }
}

/// The unit in which a size is shown.
pub fn size_unit(size: u64) -> (r: SizeUnit)
    ensures
        r == unit_of(size),
{
    if size > 1_000_000 {
        SizeUnit::Megabytes
    } else if size > 1000 {
        SizeUnit::Kilobytes
    } else {
        SizeUnit::Bytes
    }
}

/// How the size of an attachment is shown: in bytes exactly, in a larger unit by the label that
/// stands for it.
pub open spec fn size_text(size: u64, label: Seq<char>) -> Seq<char> {
    match unit_of(size) {
        SizeUnit::Bytes => text::decimal(size as nat) + "B"@,
        _ => label,
    }
}

/// The line that stands for an attachment. One without an address has none.
pub open spec fn attachment_line(att: Tree, label: Seq<char>) -> Option<Seq<char>> {
    let filename = att.str_or("filename"@, "file"@);
    let url = att.str_or("url"@, ""@);
    if url.len() == 0 {
        None
    } else if text::has_prefix(att.str_or("content_type"@, ""@), "image/"@) {
        Some("[Attached image: "@ + filename + "]("@ + url + ")"@)
    } else {
        Some(
            "[Attached file: "@ + filename + " ("@ + size_text(attachment_size(att), label)
                + ")]("@ + url + ")"@,
        )
    }
}

/// The lines that stand for attachments.
pub open spec fn attachment_lines(atts: Seq<Tree>, labels: Seq<Seq<char>>) -> Seq<Seq<char>>
    decreases atts.len(),
{
    if atts.len() == 0 {
        Seq::empty()
    } else {
        let before = attachment_lines(atts.drop_last(), labels);
        match attachment_line(atts.last(), labels[atts.len() - 1]) {
            Some(line) => before.push(line),
            None => before,
        }
    }
}

fn line_for(att: &Json, label: &str) -> (r: Option<Vec<char>>)
    ensures
        match r {
            Some(line) => attachment_line(att@, label@) == Some(line@),
            None => attachment_line(att@, label@) is None,
        },
{
    let filename = att.str_or("filename", "file");
    let url = text::chars_of(att.str_or("url", "").as_str());
    if url.len() == 0 {
        return None;
    }
    let kind = text::chars_of(att.str_or("content_type", "").as_str());
    let image = text::chars_of("image/");
    let mut line: Vec<char> = Vec::new();
    if text::at(kind.as_slice(), image.as_slice(), 0) {
        text::extend_str(&mut line, "[Attached image: ");
        text::extend_str(&mut line, filename.as_str());
        text::extend_str(&mut line, "](");
        text::extend(&mut line, url.as_slice());
        text::extend_str(&mut line, ")");
        assert(Some(line@) == attachment_line(att@, label@)) by {
            assert(Seq::<char>::empty() + "[Attached image: "@ =~= "[Attached image: "@);
        }
    } else {
        let size: u64 = match att.u64_at("size") {
            Some(n) => n,
            None => 0,
        };
        let shown = match size_unit(size) {
            SizeUnit::Bytes => {
                let mut digits = text::number(size as u128);
                text::extend_str(&mut digits, "B");
                digits
            },
            _ => text::chars_of(label),
        };
        text::extend_str(&mut line, "[Attached file: ");
        text::extend_str(&mut line, filename.as_str());
        text::extend_str(&mut line, " (");
        text::extend(&mut line, shown.as_slice());
        text::extend_str(&mut line, ")](");
        text::extend(&mut line, url.as_slice());
        text::extend_str(&mut line, ")");
        assert(Some(line@) == attachment_line(att@, label@)) by {
            assert(Seq::<char>::empty() + "[Attached file: "@ =~= "[Attached file: "@);
        }
    }
    Some(line)
}

fn lines_for(d: &Json, labels: &Vec<String>) -> (r: Vec<Vec<char>>)
    requires
        labels@.len() == attachments(d@).len(),
    ensures
        text::texts(r@) == attachment_lines(attachments(d@), text::strings(labels@)),
{
    let mut out: Vec<Vec<char>> = Vec::new();
    let ghost atts = attachments(d@);
    let ghost marks = text::strings(labels@);
    assert(text::texts(out@) =~= Seq::<Seq<char>>::empty());
    if let Some(items) = d.array_at("attachments") {
        proof {
            json::lemma_trees(items@);
            assert(atts.take(0) =~= Seq::<Tree>::empty());
        }
        let mut i: usize = 0;
        while i < items.len()
            invariant
                i <= items@.len(),
                atts == json::trees(items@),
                atts.len() == items@.len(),
                labels@.len() == items@.len(),
                marks == text::strings(labels@),
                forall|k: int| 0 <= k < items@.len() ==> (#[trigger] atts[k]) == items@[k]@,
                text::texts(out@) == attachment_lines(atts.take(i as int), marks),
            decreases items@.len() - i,
        {
            proof {
                assert(atts.take(i + 1).drop_last() =~= atts.take(i as int));
                assert(atts.take(i + 1).last() == items@[i as int]@);
                assert(marks[i as int] == labels@[i as int]@);
            }
            if let Some(line) = line_for(&items[i], labels[i].as_str()) {
                proof {
                    text::lemma_texts_push(out@, line);
                }
                out.push(line);
            }
            i += 1;
        }
        assert(atts.take(atts.len() as int) =~= atts);
    }
    out
}

// ---------------------------------------------------------------- messages

/// The text of a message and the lines for its attachments, in one.
pub open spec fn with_attachments(content: Seq<char>, lines: Seq<Seq<char>>) -> Seq<char> {
    if lines.len() == 0 {
        content
    } else if content.len() == 0 {
        text::joined(lines, "\n"@)
    } else {
        content + "\n\n"@ + text::joined(lines, "\n"@)
    }
}

/// What a text says: a text that begins with a slash is a command, with its name up to the first
/// space and its arguments separated by white space.
pub open spec fn content_of(s: Seq<char>) -> Incoming {
    if s.len() > 0 && s[0] == '/' {
        match text::find_from(s, seq![' '], 0) {
            Some(i) => Incoming::Command {
                name: s.subrange(1, i),
                args: text::words_of(s.skip(i + 1)),
            },
            None => Incoming::Command { name: s.skip(1), args: Seq::empty() },
        }
    } else {
        Incoming::Text(s)
    }
}

/// Reads a text as a command if it begins with a slash.
pub fn parse_content(s: &[char]) -> (r: ChannelContent)
    ensures
        types::incoming(r) == Some(content_of(s@)),
{
    if s.len() > 0 && s[0] == '/' {
        let space: Vec<char> = vec![' '];
        assert(space@ =~= seq![' ']);
        match text::find(s, space.as_slice(), 0) {
            Some(i) => {
                proof {
                    assert(s@.subrange(i as int, i + 1)[0] == s@[i as int]);
                    assert(seq![' '][0] == ' ');
                    assert(i >= 1);
                    assert(s@.subrange(i + 1, s@.len() as int) =~= s@.skip(i + 1));
                }
                ChannelContent::Command {
                    name: text::string_of(slice_subrange(s, 1, i)),
                    args: text::words(slice_subrange(s, i + 1, s.len())),
                }
            },
            None => {
                let args: Vec<String> = Vec::new();
                assert(text::strings(args@) =~= Seq::<Seq<char>>::empty());
                assert(s@.subrange(1, s@.len() as int) =~= s@.skip(1));
                ChannelContent::Command { name: text::string_of(slice_subrange(s, 1, s.len())), args }
            },
        }
    } else {
        ChannelContent::Text(text::string_of(s))
    }
}

/// The name that a message's author goes by: with the discriminator, unless it is a lone zero.
pub open spec fn display_name(author: Tree) -> Seq<char> {
    let username = author.str_or("username"@, "Unknown"@);
    let discriminator = author.str_or("discriminator"@, "0000"@);
    if discriminator == "0"@ {
        username
    } else {
        username + "#"@ + discriminator
    }
}

fn name_of(author: &Json) -> (r: String)
    ensures
        r@ == display_name(author@),
{
    let username = author.str_or("username", "Unknown");
    let discriminator = author.str_or("discriminator", "0000");
    if text::same_text(discriminator.as_str(), "0") {
        username
    } else {
        text::concat(
            text::concat(username.as_str(), "#").as_str(),
            discriminator.as_str(),
        )
    }
}

/// The message is one of the bot's own.
pub open spec fn is_own(author_id: Seq<char>, bot_user_id: Option<Seq<char>>) -> bool {
    bot_user_id == Some(author_id)
}

/// A message of the guild is let through: the list of guilds is empty, names the guild, or the
/// message is of no guild.
pub open spec fn guild_allowed(d: Tree, allowed: Seq<Seq<char>>) -> bool {
    match d.str_at("guild_id"@) {
        Some(guild) => allowed.len() == 0 || allowed.contains(guild),
        None => true,
    }
}

/// The text of a message with the lines for its attachments.
pub open spec fn full_text(d: Tree, labels: Seq<Seq<char>>) -> Seq<char> {
    with_attachments(d.str_or("content"@, ""@), attachment_lines(attachments(d), labels))
}

/// The author of a message, if it is one to pass on: not the bot, no other bot, of a guild that is
/// let through, with a channel and something to say.
pub open spec fn passes(
    d: Tree,
    bot_user_id: Option<Seq<char>>,
    allowed: Seq<Seq<char>>,
    labels: Seq<Seq<char>>,
) -> Option<Tree> {
    match d.get("author"@) {
        Some(author) => match author.str_at("id"@) {
            Some(id) => if !is_own(id, bot_user_id) && author.bool_at("bot"@) != Some(true)
                && guild_allowed(d, allowed) && full_text(d, labels).len() > 0 && d.str_at(
                "channel_id"@,
            ) is Some {
                Some(author)
            } else {
                None
            },
            None => None,
        },
        None => None,
    }
}

/// The channel message that a Discord message gives; `None` where it is not passed on.
pub open spec fn discord_message(
    d: Tree,
    bot_user_id: Option<Seq<char>>,
    allowed: Seq<Seq<char>>,
    labels: Seq<Seq<char>>,
    now: Timestamp,
) -> Option<MessageView> {
    match passes(d, bot_user_id, allowed, labels) {
        Some(author) => Some(
            MessageView {
                channel: ChannelType::Discord,
                platform_message_id: d.str_or("id"@, "0"@),
                sender: UserView {
                    platform_id: d.str_or("channel_id"@, ""@),
                    display_name: display_name(author),
                    openfang_user: None,
                },
                content: Some(content_of(full_text(d, labels))),
                target_agent: None,
                timestamp: instant(d.str_at("timestamp"@), now),
                is_group: true,
                thread_id: None,
                metadata: Map::empty(),
            },
        ),
        None => None,
    }
}

fn is_listed(guild: &str, allowed: &Vec<String>) -> (r: bool)
    ensures
        r == text::strings(allowed@).contains(guild@),
{
    let mut i: usize = 0;
    let ghost all = text::strings(allowed@);
    while i < allowed.len()
        invariant
            i <= allowed@.len(),
            all == text::strings(allowed@),
            forall|k: int| 0 <= k < i ==> all[k] != guild@,
        decreases allowed@.len() - i,
    {
        assert(all[i as int] == allowed@[i as int]@);
        if text::same_text(allowed[i].as_str(), guild) {
            return true;
        }
        i += 1;
    }
    false
}

pub(crate) fn is_bot(author_id: &str, bot_user_id: &Option<String>) -> (r: bool)
    ensures
        r == is_own(author_id@, text::opt_text(*bot_user_id)),
{
    match bot_user_id {
        Some(bid) => text::same_text(author_id, bid.as_str()),
        None => false,
    }
}

proof fn lemma_joined_nonempty(lines: Seq<Seq<char>>, sep: Seq<char>)
    requires
        lines.len() > 0,
        forall|i: int| 0 <= i < lines.len() ==> (#[trigger] lines[i]).len() > 0,
    ensures
        text::joined(lines, sep).len() > 0,
{
}

proof fn lemma_lines_nonempty(atts: Seq<Tree>, labels: Seq<Seq<char>>)
    ensures
        forall|i: int|
            0 <= i < attachment_lines(atts, labels).len() ==> (#[trigger] attachment_lines(
                atts,
                labels,
            )[i]).len() > 0,
    decreases atts.len(),
{
    if atts.len() > 0 {
        let before = attachment_lines(atts.drop_last(), labels);
        lemma_lines_nonempty(atts.drop_last(), labels);
        reveal_strlit(")");
        assert forall|i: int| 0 <= i < attachment_lines(atts, labels).len() implies (
        #[trigger] attachment_lines(atts, labels)[i]).len() > 0 by {
            if i < before.len() {
                assert(attachment_lines(atts, labels)[i] == before[i]);
            }
        }
    }
}

/// Reads a message that was created or edited, at the time `now`. `size_labels` holds for each
/// attachment how a size over a thousand bytes is shown.
pub fn parse_discord_message_at(
    d: &Json,
    bot_user_id: &Option<String>,
    allowed_guilds: &Vec<String>,
    size_labels: &Vec<String>,
    now: Timestamp,
) -> (r: Option<ChannelMessage>)
    requires
        size_labels@.len() == attachments(d@).len(),
    ensures
        match r {
            Some(m) => discord_message(
                d@,
                text::opt_text(*bot_user_id),
                text::strings(allowed_guilds@),
                text::strings(size_labels@),
                now,
            ) == Some(m@),
            None => discord_message(
                d@,
                text::opt_text(*bot_user_id),
                text::strings(allowed_guilds@),
                text::strings(size_labels@),
                now,
            ) is None,
        },
{
    let author = match d.get("author") {
        Some(a) => a,
        None => {
            return None;
        },
    };
    let author_id = match author.str_at("id") {
        Some(id) => id,
        None => {
            return None;
        },
    };
    if is_bot(author_id, bot_user_id) {
        return None;
    }
    if let Some(true) = author.bool_at("bot") {
        return None;
    }
    if allowed_guilds.len() > 0 {
        if let Some(guild) = d.str_at("guild_id") {
            if !is_listed(guild, allowed_guilds) {
                return None;
            }
        }
    }
    assert(guild_allowed(d@, text::strings(allowed_guilds@)));
    let content = text::chars_of(d.str_or("content", "").as_str());
    let lines = lines_for(d, size_labels);
    proof {
        lemma_lines_nonempty(attachments(d@), text::strings(size_labels@));
        if lines@.len() > 0 {
            lemma_joined_nonempty(text::texts(lines@), "\n"@);
        }
    }
    if content.len() == 0 && lines.len() == 0 {
        return None;
    }
    let full: Vec<char> = if lines.len() == 0 {
        content
    } else if content.len() == 0 {
        text::join(&lines, "\n")
    } else {
        let mut both = content;
        let more = text::join(&lines, "\n");
        text::extend_str(&mut both, "\n\n");
        text::extend(&mut both, more.as_slice());
        both
    };
    assert(full@ == full_text(d@, text::strings(size_labels@)));
    assert(full@.len() > 0);
    let channel_id = match d.str_at("channel_id") {
        Some(c) => c.to_string(),
        None => {
            return None;
        },
    };
    let metadata: Vec<(String, Json)> = Vec::new();
    assert(json::members(metadata@) =~= Map::empty());
    Some(
        ChannelMessage {
            channel: ChannelType::Discord,
            platform_message_id: d.str_or("id", "0"),
            sender: ChannelUser {
                platform_id: channel_id,
                display_name: name_of(author),
                openfang_user: None,
            },
            content: parse_content(full.as_slice()),
            target_agent: None,
            timestamp: instant_or(d.str_at("timestamp"), now),
            is_group: true,
            thread_id: None,
            metadata,
        },
    )
}

/// Reads a message that was created or edited. One without a readable time gets the current time.
pub fn parse_discord_message(
    d: &Json,
    bot_user_id: &Option<String>,
    allowed_guilds: &Vec<String>,
    size_labels: &Vec<String>,
) -> (r: Option<ChannelMessage>)
    requires
        size_labels@.len() == attachments(d@).len(),
    ensures
        match r {
            Some(m) => discord_message(
                d@,
                text::opt_text(*bot_user_id),
                text::strings(allowed_guilds@),
                text::strings(size_labels@),
                m.timestamp,
            ) == Some(m@),
            None => passes(
                d@,
                text::opt_text(*bot_user_id),
                text::strings(allowed_guilds@),
                text::strings(size_labels@),
            ) is None,
        },
        r matches Some(m) ==> !gives_instant(d@.str_at("timestamp"@)) ==> m.timestamp.nanos
            < 1_000_000_000,
{
    parse_discord_message_at(d, bot_user_id, allowed_guilds, size_labels, utc_now())
}

// ---------------------------------------------------------------- interactions

/// The user behind an interaction: the guild member's, else the interaction's own.
pub open spec fn interaction_user(d: Tree) -> Option<Tree> {
    match d.get("member"@) {
        Some(m) => match m.get("user"@) {
            Some(u) => Some(u),
            None => d.get("user"@),
        },
        None => d.get("user"@),
    }
}

fn user_of(d: &Json) -> (r: Option<&Json>)
    ensures
        match r {
            Some(u) => interaction_user(d@) == Some(u@),
            None => interaction_user(d@) is None,
        },
{
    match d.get("member") {
        Some(m) => match m.get("user") {
            Some(u) => Some(u),
            None => d.get("user"),
        },
        None => d.get("user"),
    }
}

/// The texts among the items of a list.
pub open spec fn texts_among(items: Seq<Tree>) -> Seq<Seq<char>>
    decreases items.len(),
{
    if items.len() == 0 {
        Seq::empty()
    } else {
        match items.last().as_str() {
            Some(s) => texts_among(items.drop_last()).push(s),
            None => texts_among(items.drop_last()),
        }
    }
}

/// The textual values of the items of a list.
pub open spec fn values_among(items: Seq<Tree>) -> Seq<Seq<char>> {
    texts_among(items.map_values(|t: Tree| t.at("value"@)))
}

/// The items of a member that is a list, none where it is not.
pub open spec fn items_at(t: Tree, key: Seq<char>) -> Seq<Tree> {
    match t.array_at(key) {
        Some(items) => items,
        None => Seq::empty(),
    }
}

fn texts_at(t: &Json, key: &str) -> (r: Vec<String>)
    ensures
        text::strings(r@) == texts_among(items_at(t@, key@)),
{
    let mut out: Vec<String> = Vec::new();
    let ghost all = items_at(t@, key@);
    assert(text::strings(out@) =~= Seq::<Seq<char>>::empty());
    if let Some(items) = t.array_at(key) {
        proof {
            json::lemma_trees(items@);
            assert(all.take(0) =~= Seq::<Tree>::empty());
        }
        let mut i: usize = 0;
        while i < items.len()
            invariant
                i <= items@.len(),
                all.len() == items@.len(),
                forall|k: int| 0 <= k < items@.len() ==> (#[trigger] all[k]) == items@[k]@,
                text::strings(out@) == texts_among(all.take(i as int)),
            decreases items@.len() - i,
        {
            proof {
                assert(all.take(i + 1).drop_last() =~= all.take(i as int));
                assert(all.take(i + 1).last() == items@[i as int]@);
            }
            if let Some(s) = items[i].as_str() {
                let owned = s.to_string();
                proof {
                    text::lemma_strings_push(out@, owned);
                }
                out.push(owned);
            }
            i += 1;
        }
        assert(all.take(all.len() as int) =~= all);
    }
    out
}

fn push_values(t: &Json, key: &str, out: &mut Vec<String>)
    ensures
        text::strings(final(out)@) == text::strings(old(out)@) + values_among(items_at(t@, key@)),
{
    let ghost all = items_at(t@, key@).map_values(|x: Tree| x.at("value"@));
    let ghost before = text::strings(out@);
    assert(before + Seq::<Seq<char>>::empty() =~= before);
    if let Some(items) = t.array_at(key) {
        proof {
            json::lemma_trees(items@);
            assert(all.take(0) =~= Seq::<Tree>::empty());
        }
        let mut i: usize = 0;
        while i < items.len()
            invariant
                i <= items@.len(),
                all.len() == items@.len(),
                forall|k: int|
                    0 <= k < items@.len() ==> (#[trigger] all[k]) == items@[k]@.at("value"@),
                text::strings(out@) == before + texts_among(all.take(i as int)),
            decreases items@.len() - i,
        {
            proof {
                assert(all.take(i + 1).drop_last() =~= all.take(i as int));
                assert(all.take(i + 1).last() == items@[i as int]@.at("value"@));
            }
            if let Some(s) = items[i].str_at("value") {
                let owned = s.to_string();
                proof {
                    text::lemma_strings_push(out@, owned);
                    assert((before + texts_among(all.take(i as int))).push(s@) =~= before
                        + texts_among(all.take(i as int)).push(s@));
                }
                out.push(owned);
            }
            i += 1;
        }
        assert(all.take(all.len() as int) =~= all);
    } else {
        assert(all =~= Seq::<Tree>::empty());
    }
}

/// The command that an interaction stands for. A slash command has its name and its options'
/// textual values, a button or menu its identifier and the chosen values.
pub open spec fn interaction_command(d: Tree, kind: u64) -> Option<(Seq<char>, Seq<Seq<char>>)> {
    match d.get("data"@) {
        Some(data) => if kind == 2 {
            match data.str_at("name"@) {
                Some(name) => Some((name, values_among(items_at(data, "options"@)))),
                None => None,
            }
        } else if kind == 3 {
            match data.str_at("custom_id"@) {
                Some(id) => Some((id, texts_among(items_at(data, "values"@)))),
                None => None,
            }
        } else {
            None
        },
        None => None,
    }
}

/// The message that carries a command from an interaction.
pub open spec fn command_message(
    d: Tree,
    user: Tree,
    name: Seq<char>,
    args: Seq<Seq<char>>,
    metadata: Map<Seq<char>, Tree>,
    now: Timestamp,
) -> MessageView {
    MessageView {
        channel: ChannelType::Discord,
        platform_message_id: d.str_or("id"@, "0"@),
        sender: UserView {
            platform_id: d.str_or("channel_id"@, ""@),
            display_name: user.str_or("username"@, "Unknown"@),
            openfang_user: None,
        },
        content: Some(Incoming::Command { name, args }),
        target_agent: None,
        timestamp: now,
        is_group: d.get("guild_id"@) is Some,
        thread_id: None,
        metadata,
    }
}

/// The user behind an interaction, if it has a channel and an identified user who is not the bot.
pub open spec fn interaction_author(d: Tree, bot_user_id: Option<Seq<char>>) -> Option<Tree> {
    match interaction_user(d) {
        Some(user) => match user.str_at("id"@) {
            Some(id) => if d.str_at("channel_id"@) is Some && !is_own(id, bot_user_id) {
                Some(user)
            } else {
                None
            },
            None => None,
        },
        None => None,
    }
}

/// What is needed to answer an interaction.
pub open spec fn interaction_metadata(d: Tree) -> Map<Seq<char>, Tree> {
    Map::<Seq<char>, Tree>::empty().insert(
        "interaction_id"@,
        Tree::Str(d.str_or("id"@, ""@)),
    ).insert("interaction_token"@, Tree::Str(d.str_or("token"@, ""@)))
}

/// The channel message that a slash command or a component gives; `None` where it is not passed on.
pub open spec fn interaction_message(
    d: Tree,
    bot_user_id: Option<Seq<char>>,
    kind: u64,
    now: Timestamp,
) -> Option<MessageView> {
    match interaction_author(d, bot_user_id) {
        Some(user) => match interaction_command(d, kind) {
            Some((name, args)) => Some(
                command_message(d, user, name, args, interaction_metadata(d), now),
            ),
            None => None,
        },
        None => None,
    }
}

fn author_of<'a>(d: &'a Json, bot_user_id: &Option<String>) -> (r: Option<&'a Json>)
    ensures
        match r {
            Some(u) => interaction_author(d@, text::opt_text(*bot_user_id)) == Some(u@),
            None => interaction_author(d@, text::opt_text(*bot_user_id)) is None,
        },
{
    match d.str_at("channel_id") {
        Some(_) => {},
        None => {
            return None;
        },
    }
    match user_of(d) {
        Some(user) => match user.str_at("id") {
            Some(id) => if is_bot(id, bot_user_id) {
                None
            } else {
                Some(user)
            },
            None => None,
        },
        None => None,
    }
}

fn message_for(
    d: &Json,
    user: &Json,
    name: String,
    args: Vec<String>,
    metadata: Vec<(String, Json)>,
    now: Timestamp,
) -> (r: ChannelMessage)
    ensures
        r@ == command_message(
            d@,
            user@,
            name@,
            text::strings(args@),
            json::members(metadata@),
            now,
        ),
{
    ChannelMessage {
        channel: ChannelType::Discord,
        platform_message_id: d.str_or("id", "0"),
        sender: ChannelUser {
            platform_id: d.str_or("channel_id", ""),
            display_name: user.str_or("username", "Unknown"),
            openfang_user: None,
        },
        content: ChannelContent::Command { name, args },
        target_agent: None,
        timestamp: now,
        is_group: d.get("guild_id").is_some(),
        thread_id: None,
        metadata,
    }
}

fn answer_data(d: &Json) -> (r: Vec<(String, Json)>)
    ensures
        json::members(r@) == interaction_metadata(d@),
{
    let mut out: Vec<(String, Json)> = Vec::new();
    assert(json::members(out@) =~= Map::empty());
    let id = ("interaction_id".to_string(), Json::Str(d.str_or("id", "")));
    proof {
        json::lemma_members_push(out@, id);
    }
    out.push(id);
    let token = ("interaction_token".to_string(), Json::Str(d.str_or("token", "")));
    proof {
        json::lemma_members_push(out@, token);
    }
    out.push(token);
    out
}

/// Reads a slash command or a click on a component, at the time `now`.
pub fn parse_interaction_at(
    d: &Json,
    bot_user_id: &Option<String>,
    interaction_type: u64,
    now: Timestamp,
) -> (r: Option<ChannelMessage>)
    ensures
        match r {
            Some(m) => interaction_message(
                d@,
                text::opt_text(*bot_user_id),
                interaction_type,
                now,
            ) == Some(m@),
            None => interaction_message(
                d@,
                text::opt_text(*bot_user_id),
                interaction_type,
                now,
            ) is None,
        },
{
    let user = match author_of(d, bot_user_id) {
        Some(u) => u,
        None => {
            return None;
        },
    };
    let data = match d.get("data") {
        Some(x) => x,
        None => {
            return None;
        },
    };
    if interaction_type == 2 {
        match data.str_at("name") {
            Some(name) => {
                let mut args: Vec<String> = Vec::new();
                assert(text::strings(args@) =~= Seq::<Seq<char>>::empty());
                push_values(data, "options", &mut args);
                assert(text::strings(args@) =~= values_among(items_at(data@, "options"@)));
                Some(message_for(d, user, name.to_string(), args, answer_data(d), now))
            },
            None => None,
        }
    } else if interaction_type == 3 {
        match data.str_at("custom_id") {
            Some(id) => {
                let args = texts_at(data, "values");
                Some(message_for(d, user, id.to_string(), args, answer_data(d), now))
            },
            None => None,
        }
    } else {
        None
    }
}

/// Reads a slash command or a click on a component. The message carries the current time.
pub fn parse_interaction(
    d: &Json,
    bot_user_id: &Option<String>,
    interaction_type: u64,
) -> (r: Option<ChannelMessage>)
    ensures
        match r {
            Some(m) => interaction_message(
                d@,
                text::opt_text(*bot_user_id),
                interaction_type,
                m.timestamp,
            ) == Some(m@),
            None => interaction_author(d@, text::opt_text(*bot_user_id)) is None
                || interaction_command(d@, interaction_type) is None,
        },
        r matches Some(m) ==> m.timestamp.nanos < 1_000_000_000,
{
    parse_interaction_at(d, bot_user_id, interaction_type, utc_now())
}

/// The texts that were entered into a form, row by row.
pub open spec fn entered(rows: Seq<Tree>) -> Seq<Seq<char>>
    decreases rows.len(),
{
    if rows.len() == 0 {
        Seq::empty()
    } else {
        entered(rows.drop_last()) + values_among(items_at(rows.last(), "components"@))
    }
}

/// The channel message that a submitted form gives; `None` where it is not passed on.
pub open spec fn modal_message(d: Tree, bot_user_id: Option<Seq<char>>, now: Timestamp) -> Option<
    MessageView,
> {
    match interaction_author(d, bot_user_id) {
        Some(user) => match d.get("data"@) {
            Some(data) => match data.str_at("custom_id"@) {
                Some(id) => Some(
                    command_message(
                        d,
                        user,
                        id,
                        entered(items_at(data, "components"@)),
                        Map::empty(),
                        now,
                    ),
                ),
                None => None,
            },
            None => None,
        },
        None => None,
    }
}

/// Reads a submitted form, at the time `now`.
pub fn parse_modal_submit_at(d: &Json, bot_user_id: &Option<String>, now: Timestamp) -> (r: Option<
    ChannelMessage,
>)
    ensures
        match r {
            Some(m) => modal_message(d@, text::opt_text(*bot_user_id), now) == Some(m@),
            None => modal_message(d@, text::opt_text(*bot_user_id), now) is None,
        },
{
    let user = match author_of(d, bot_user_id) {
        Some(u) => u,
        None => {
            return None;
        },
    };
    let data = match d.get("data") {
        Some(x) => x,
        None => {
            return None;
        },
    };
    let custom_id = match data.str_at("custom_id") {
        Some(id) => id.to_string(),
        None => {
            return None;
        },
    };
    let mut values: Vec<String> = Vec::new();
    let ghost all = items_at(data@, "components"@);
    assert(text::strings(values@) =~= Seq::<Seq<char>>::empty());
    if let Some(rows) = data.array_at("components") {
        proof {
            json::lemma_trees(rows@);
            assert(all.take(0) =~= Seq::<Tree>::empty());
        }
        let mut i: usize = 0;
        while i < rows.len()
            invariant
                i <= rows@.len(),
                all.len() == rows@.len(),
                forall|k: int| 0 <= k < rows@.len() ==> (#[trigger] all[k]) == rows@[k]@,
                text::strings(values@) == entered(all.take(i as int)),
            decreases rows@.len() - i,
        {
            proof {
                assert(all.take(i + 1).drop_last() =~= all.take(i as int));
                assert(all.take(i + 1).last() == rows@[i as int]@);
            }
            push_values(&rows[i], "components", &mut values);
            i += 1;
        }
        assert(all.take(all.len() as int) =~= all);
    }
    let metadata: Vec<(String, Json)> = Vec::new();
    assert(json::members(metadata@) =~= Map::empty());
    Some(message_for(d, user, custom_id, values, metadata, now))
}

/// Reads a submitted form. The message carries the current time.
pub fn parse_modal_submit(d: &Json, bot_user_id: &Option<String>) -> (r: Option<ChannelMessage>)
    ensures
        match r {
            Some(m) => modal_message(d@, text::opt_text(*bot_user_id), m.timestamp) == Some(m@),
            None => forall|now: Timestamp|
                #[trigger] modal_message(d@, text::opt_text(*bot_user_id), now) is None,
        },
        r matches Some(m) ==> m.timestamp.nanos < 1_000_000_000,
{
    parse_modal_submit_at(d, bot_user_id, utc_now())
}

// ---------------------------------------------------------------- laws

proof fn lemma_word(s: Seq<char>)
    ensures
        text::word_len(s) <= s.len(),
        forall|i: int| 0 <= i < text::word_len(s) ==> !text::is_white(#[trigger] s[i]),
    decreases s.len(),
{
    if s.len() > 0 && !text::is_white(s[0]) {
        let rest = s.drop_first();
        lemma_word(rest);
        assert forall|i: int| 0 <= i < text::word_len(s) implies !text::is_white(
            #[trigger] s[i],
        ) by {
            if i > 0 {
                assert(rest[i - 1] == s[i]);
            }
        }
    }
}

/// A word: not empty, and without white space.
pub open spec fn is_word(w: Seq<char>) -> bool {
    w.len() > 0 && forall|i: int| 0 <= i < w.len() ==> !text::is_white(#[trigger] w[i])
}

proof fn lemma_words(s: Seq<char>)
    ensures
        forall|i: int| 0 <= i < text::words_of(s).len() ==> is_word(#[trigger] text::words_of(s)[i]),
    decreases s.len(),
{
    if s.len() > 0 {
        if text::is_white(s[0]) {
            lemma_words(s.drop_first());
            assert(text::words_of(s) == text::words_of(s.drop_first()));
        } else {
            let n = text::word_len(s) as int;
            lemma_word(s);
            if 0 < n <= s.len() {
                let first = s.take(n);
                let rest = text::words_of(s.skip(n));
                lemma_words(s.skip(n));
                assert forall|i: int| 0 <= i < text::words_of(s).len() implies is_word(
                    #[trigger] text::words_of(s)[i],
                ) by {
                    if i == 0 {
                        assert(text::words_of(s)[0] == first);
                        assert forall|k: int| 0 <= k < first.len() implies !text::is_white(
                            #[trigger] first[k],
                        ) by {
                            assert(first[k] == s[k]);
                        }
                    } else {
                        assert(text::words_of(s)[i] == rest[i - 1]);
                    }
                }
            }
        }
    }
}

/// A text is a command if and only if it begins with a slash. The name of a command holds no space,
/// and its arguments are words.
pub proof fn commands_begin_with_a_slash(s: Seq<char>)
    ensures
        content_of(s) is Command <==> s.len() > 0 && s[0] == '/',
        content_of(s) matches Incoming::Text(t) ==> t == s,
        content_of(s) matches Incoming::Command { name, args } ==> !name.contains(' ') && forall|
            i: int,
        |
            0 <= i < args.len() ==> is_word(#[trigger] args[i]),
{
    if s.len() > 0 && s[0] == '/' {
        let space = seq![' '];
        text::lemma_find_from(s, space, 0);
        let end = match text::find_from(s, space, 0) {
            Some(i) => i,
            None => s.len() as int,
        };
        if text::find_from(s, space, 0) is Some {
            assert(s.subrange(end, end + 1)[0] == s[end]);
            lemma_words(s.skip(end + 1));
        }
        let name = s.subrange(1, end);
        assert(s.skip(1) =~= s.subrange(1, s.len() as int));
        if name.contains(' ') {
            let k = choose|k: int| 0 <= k < name.len() && name[k] == ' ';
            assert(s[k + 1] == ' ');
            assert(s.subrange(k + 1, k + 2) =~= space);
            assert(text::stands_at(s, space, k + 1));
        }
    }
}

/// Every attachment that has an address is mentioned.
pub proof fn attachments_are_mentioned(atts: Seq<Tree>, labels: Seq<Seq<char>>, i: int)
    requires
        0 <= i < atts.len(),
        atts[i].str_or("url"@, ""@).len() > 0,
    ensures
        attachment_lines(atts, labels).contains(attachment_line(atts[i], labels[i])->0),
    decreases atts.len(),
{
    let line = attachment_line(atts[i], labels[i])->0;
    let before = attachment_lines(atts.drop_last(), labels);
    let whole = attachment_lines(atts, labels);
    if i < atts.len() - 1 {
        attachments_are_mentioned(atts.drop_last(), labels, i);
        assert(atts.drop_last()[i] == atts[i]);
        let k = choose|k: int| 0 <= k < before.len() && before[k] == line;
        assert(whole[k] == line);
    } else {
        assert(whole[whole.len() - 1] == line);
    }
}

} // verus!
