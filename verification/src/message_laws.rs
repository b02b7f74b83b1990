//! What holds of the messages that are made of what Discord reports, in terms of the report alone.

use crate::gateway;
use crate::gateway::{ActionView, SessionView};
use crate::adapter::AdapterView;
use crate::json::Tree;
use crate::parse;
use crate::text;
use crate::text_laws;
use crate::types::{ChannelType, Incoming, MessageView, Timestamp};
use vstd::prelude::*;

verus! {

// ---------------------------------------------------------------- lists

/// The positions increase.
pub open spec fn increasing(at: Seq<int>) -> bool {
    forall|j: int, k: int| 0 <= j < k < at.len() ==> at[j] < at[k]
}

/// `out` holds the texts among the items: each of them, in order, and nothing else. `at` tells where
/// each comes from.
pub open spec fn picks_texts(items: Seq<Tree>, out: Seq<Seq<char>>, at: Seq<int>) -> bool {
    &&& at.len() == out.len()
    &&& increasing(at)
    &&& forall|k: int|
        0 <= k < at.len() ==> 0 <= #[trigger] at[k] < items.len() && items[at[k]] == Tree::Str(out[k])
    &&& forall|i: int| 0 <= i < items.len() && #[trigger] items[i] is Str ==> at.contains(i)
}

proof fn lemma_picks(items: Seq<Tree>) -> (at: Seq<int>)
    ensures
        picks_texts(items, parse::texts_among(items), at),
    decreases items.len(),
{
    if items.len() == 0 {
        Seq::empty()
    } else {
        let front = items.drop_last();
        let n = items.len() - 1;
        let before = lemma_picks(front);
        let out = parse::texts_among(items);
        if items.last() is Str {
            let at = before.push(n);
            assert(at[at.len() - 1] == n);
            assert forall|i: int| 0 <= i < items.len() && #[trigger] items[i] is Str implies at.contains(
                i,
            ) by {
                if i < n {
                    assert(front[i] == items[i]);
                    assert(before.contains(i));
                    let k = choose|k: int| 0 <= k < before.len() && before[k] == i;
                    assert(at[k] == i);
                }
            }
            assert forall|k: int| 0 <= k < at.len() implies 0 <= #[trigger] at[k] < items.len()
                && items[at[k]] == Tree::Str(out[k]) by {
                if k < before.len() {
                    assert(front[before[k]] == items[before[k]]);
                }
            }
            at
        } else {
            assert forall|i: int| 0 <= i < items.len() && #[trigger] items[i] is Str implies before.contains(
                i,
            ) by {
                assert(front[i] == items[i]);
            }
            assert forall|k: int| 0 <= k < before.len() implies 0 <= #[trigger] before[k]
                < items.len() && items[before[k]] == Tree::Str(out[k]) by {
                assert(front[before[k]] == items[before[k]]);
            }
            before
        }
    }
}

// ---------------------------------------------------------------- what a text says

/// A text that does not begin with a slash is passed on character for character.
pub proof fn plain_content_is_kept(s: Seq<char>)
    requires
        s.len() == 0 || s[0] != '/',
    ensures
        parse::content_of(s) == Incoming::Text(s),
{
}

/// A slash and a name are a command without arguments; behind a space come the arguments, the words
/// of the rest, all of them and in order.
pub proof fn commands_have_a_name_and_words(name: Seq<char>, rest: Seq<char>)
    requires
        !name.contains(' '),
    ensures
        parse::content_of(seq!['/'] + name) matches Incoming::Command { name: n, args }
            && n == name && args.len() == 0,
        parse::content_of(seq!['/'] + name + seq![' '] + rest) == (Incoming::Command {
            name,
            args: text::words_of(rest),
        }),
{
    let whole = seq!['/'] + name;
    let s = seq!['/'] + name + seq![' '] + rest;
    let n = name.len() as int;
    text_laws::the_first_character_is_found(whole, ' ');
    text_laws::the_first_character_is_found(s, ' ');
    if whole.contains(' ') {
        let k = choose|k: int| 0 <= k < whole.len() && whole[k] == ' ';
        assert(name[k - 1] == ' ');
    }
    assert(whole.skip(1) =~= name);
    assert(s[n + 1] == ' ');
    assert(s.contains(' '));
    let i = text::find_from(s, seq![' '], 0)->0;
    if 0 < i < n + 1 {
        assert(name[i - 1] == s[i]);
        assert(name.contains(' '));
    }
    assert(i == n + 1);
    assert(s.subrange(1, i) =~= name);
    assert(s.skip(i + 1) =~= rest);
}

// ---------------------------------------------------------------- who is let through

/// The message is of a user: it names its author, who is neither the bot nor a bot, and a channel.
pub open spec fn of_a_user(d: Tree, bot_user_id: Option<Seq<char>>) -> bool {
    &&& d.at("author"@).str_at("id"@) is Some
    &&& d.at("author"@).str_at("id"@) != bot_user_id
    &&& d.at("author"@).bool_at("bot"@) != Some(true)
    &&& d.str_at("channel_id"@) is Some
}

/// The message has no attachments, or none that are listed.
pub open spec fn unattached(d: Tree) -> bool {
    !(d.at("attachments"@) is Array) || d.at("attachments"@)->Array_0.len() == 0
}

proof fn lemma_unattached(d: Tree, labels: Seq<Seq<char>>)
    requires
        unattached(d),
    ensures
        parse::full_text(d, labels) == d.str_or("content"@, ""@),
{
}

/// The message that is passed on carries the identifiers, the channel and the time that were
/// reported, and says what was written.
pub open spec fn carries(
    m: MessageView,
    d: Tree,
    says: Seq<char>,
    now: Timestamp,
) -> bool {
    &&& m.channel == ChannelType::Discord
    &&& d.str_at("id"@) is Some ==> Some(m.platform_message_id) == d.str_at("id"@)
    &&& d.str_at("id"@) is None ==> m.platform_message_id == "0"@
    &&& Some(m.sender.platform_id) == d.str_at("channel_id"@)
    &&& m.sender.openfang_user is None
    &&& m.target_agent is None
    &&& m.thread_id is None
    &&& m.is_group
    &&& m.metadata == Map::<Seq<char>, Tree>::empty()
    &&& d.str_at("timestamp"@) is None ==> m.timestamp == now
    &&& d.str_at("timestamp"@) matches Some(t) ==> match parse::rfc3339(t) {
        Some(x) => m.timestamp.secs == x.0 && m.timestamp.nanos == x.1,
        None => m.timestamp == now,
    }
    &&& m.content == Some(parse::content_of(says))
    &&& says[0] != '/' ==> m.content == Some(Incoming::Text(says))
    &&& says[0] == '/' && !says.contains(' ') ==> (m.content matches Some(
        Incoming::Command { name, args },
    ) && name == says.subrange(1, says.len() as int) && args.len() == 0)
}

proof fn lemma_carries(
    d: Tree,
    bot_user_id: Option<Seq<char>>,
    allowed: Seq<Seq<char>>,
    labels: Seq<Seq<char>>,
    now: Timestamp,
)
    requires
        of_a_user(d, bot_user_id),
        parse::guild_allowed(d, allowed),
        parse::full_text(d, labels).len() > 0,
    ensures
        parse::discord_message(d, bot_user_id, allowed, labels, now) matches Some(m) && carries(
            m,
            d,
            parse::full_text(d, labels),
            now,
        ),
{
    let says = parse::full_text(d, labels);
    if says[0] == '/' {
        text_laws::the_first_character_is_found(says, ' ');
        assert(says.skip(1) =~= says.subrange(1, says.len() as int));
        if let Some(i) = text::find_from(says, seq![' '], 0) {
            assert(says.contains(says[i]));
        }
    }
}

/// A user's message of any guild in the list is passed on, wherever in the list the guild stands.
pub proof fn listed_guilds_are_let_through(
    d: Tree,
    bot_user_id: Option<Seq<char>>,
    allowed: Seq<Seq<char>>,
    i: int,
    says: Seq<char>,
    labels: Seq<Seq<char>>,
    now: Timestamp,
)
    requires
        of_a_user(d, bot_user_id),
        0 <= i < allowed.len(),
        d.str_at("guild_id"@) == Some(allowed[i]),
        d.str_at("content"@) == Some(says),
        says.len() > 0,
        unattached(d),
    ensures
        parse::discord_message(d, bot_user_id, allowed, labels, now) matches Some(m) && carries(
            m,
            d,
            says,
            now,
        ),
{
    lemma_unattached(d, labels);
    lemma_carries(d, bot_user_id, allowed, labels, now);
}

/// A user's message is passed on where no guild is listed, and where it is of no guild.
pub proof fn without_a_list_or_a_guild_all_pass(
    d: Tree,
    bot_user_id: Option<Seq<char>>,
    allowed: Seq<Seq<char>>,
    says: Seq<char>,
    labels: Seq<Seq<char>>,
    now: Timestamp,
)
    requires
        of_a_user(d, bot_user_id),
        allowed.len() == 0 || d.str_at("guild_id"@) is None,
        d.str_at("content"@) == Some(says),
        says.len() > 0,
        unattached(d),
    ensures
        parse::discord_message(d, bot_user_id, allowed, labels, now) matches Some(m) && carries(
            m,
            d,
            says,
            now,
        ),
{
    lemma_unattached(d, labels);
    lemma_carries(d, bot_user_id, allowed, labels, now);
}

/// Nothing is passed on of the bot, of another bot, of a guild that is not listed, without an
/// author, without a channel, or without anything to say.
pub proof fn the_rest_is_dropped(
    d: Tree,
    bot_user_id: Option<Seq<char>>,
    allowed: Seq<Seq<char>>,
    labels: Seq<Seq<char>>,
    now: Timestamp,
)
    requires
        ({
            ||| d.at("author"@).str_at("id"@) is None
            ||| d.at("author"@).str_at("id"@) == bot_user_id
            ||| d.at("author"@).bool_at("bot"@) == Some(true)
            ||| d.str_at("channel_id"@) is None
            ||| (allowed.len() > 0 && (d.str_at("guild_id"@) matches Some(g) && forall|i: int|
                0 <= i < allowed.len() ==> #[trigger] allowed[i] != g))
            ||| (unattached(d) && (d.str_at("content"@) matches Some(c) ==> c.len() == 0))
        }),
    ensures
        parse::discord_message(d, bot_user_id, allowed, labels, now) is None,
{
    if unattached(d) {
        lemma_unattached(d, labels);
        reveal_strlit("");
    }
}

/// A message has an author to pass on if and only if it is passed on.
pub proof fn what_passes_is_passed_on(
    d: Tree,
    bot_user_id: Option<Seq<char>>,
    allowed: Seq<Seq<char>>,
    labels: Seq<Seq<char>>,
    now: Timestamp,
)
    ensures
        parse::passes(d, bot_user_id, allowed, labels) is Some <==> parse::discord_message(
            d,
            bot_user_id,
            allowed,
            labels,
            now,
        ) is Some,
        parse::passes(d, bot_user_id, allowed, labels) matches Some(author) ==> author == d.at(
            "author"@,
        ),
{
}

/// The same holds of what the gateway reports: a user's message of a listed guild is delivered.
pub proof fn reported_messages_are_delivered(
    s: SessionView,
    a: AdapterView,
    payload: Tree,
    name: Seq<char>,
    i: int,
    says: Seq<char>,
    labels: Seq<Seq<char>>,
    now: Timestamp,
)
    requires
        payload.u64_at("op"@) == Some(0u64),
        payload.str_at("t"@) == Some(name),
        name == "MESSAGE_CREATE"@ || name == "MESSAGE_UPDATE"@,
        of_a_user(payload.at("d"@), s.bot_user_id),
        a.allowed_guilds.len() == 0 || payload.at("d"@).str_at("guild_id"@) is None || (0 <= i
            < a.allowed_guilds.len() && payload.at("d"@).str_at("guild_id"@) == Some(
            a.allowed_guilds[i],
        )),
        payload.at("d"@).str_at("content"@) == Some(says),
        says.len() > 0,
        unattached(payload.at("d"@)),
    ensures
        ({
            let step = gateway::on_payload(s, a, payload, labels, now);
            &&& step.actions.len() == 1
            &&& step.actions[0] matches ActionView::Deliver(m)
            &&& carries(m, payload.at("d"@), says, now)
        }),
{
    let d = payload.at("d"@);
    crate::gateway_laws::lemma_names_differ();
    if a.allowed_guilds.len() == 0 || d.str_at("guild_id"@) is None {
        without_a_list_or_a_guild_all_pass(d, s.bot_user_id, a.allowed_guilds, says, labels, now);
    } else {
        listed_guilds_are_let_through(d, s.bot_user_id, a.allowed_guilds, i, says, labels, now);
    }
}

/// An author goes by the user name, with the discriminator behind it unless that is a lone zero.
pub proof fn authors_go_by_their_names(
    d: Tree,
    bot_user_id: Option<Seq<char>>,
    allowed: Seq<Seq<char>>,
    labels: Seq<Seq<char>>,
    now: Timestamp,
)
    ensures
        parse::discord_message(d, bot_user_id, allowed, labels, now) matches Some(m) ==> {
            let author = d.at("author"@);
            let name = match author.str_at("username"@) {
                Some(n) => n,
                None => "Unknown"@,
            };
            &&& author.str_at("discriminator"@) == Some("0"@) ==> m.sender.display_name == name
            &&& author.str_at("discriminator"@) matches Some(x) ==> x != "0"@
                ==> m.sender.display_name == name + "#"@ + x
            &&& author.str_at("discriminator"@) is None ==> m.sender.display_name == name + "#"@
                + "0000"@
        },
{
    reveal_strlit("0");
    reveal_strlit("0000");
    assert("0"@.len() == 1);
    assert("0000"@.len() == 4);
}

// ---------------------------------------------------------------- attachments

/// The line tells of the attachment: an image by its name and address, another file by its name,
/// size and address. Sizes up to a thousand bytes are written out, larger ones as labelled.
pub open spec fn tells_of(line: Seq<char>, att: Tree, label: Seq<char>) -> bool {
    let name = match att.str_at("filename"@) {
        Some(n) => n,
        None => "file"@,
    };
    let size = match att.u64_at("size"@) {
        Some(n) => n,
        None => 0u64,
    };
    let url = att.str_at("url"@)->0;
    if att.str_at("content_type"@) matches Some(kind) && text_laws::occurs(kind, "image/"@, 0) {
        line == "[Attached image: "@ + name + "]("@ + url + ")"@
    } else if size > 1000 {
        line == "[Attached file: "@ + name + " ("@ + label + ")]("@ + url + ")"@
    } else {
        line == "[Attached file: "@ + name + " ("@ + (text::decimal(size as nat) + "B"@) + ")]("@
            + url + ")"@
    }
}

proof fn lemma_line(att: Tree, label: Seq<char>)
    requires
        att.str_at("url"@) matches Some(u) && u.len() > 0,
    ensures
        parse::attachment_line(att, label) matches Some(line) && tells_of(line, att, label),
{
    let kind = att.str_or("content_type"@, ""@);
    text_laws::standing_is_by_character(kind, "image/"@, 0);
    reveal_strlit("");
    reveal_strlit("image/");
}

proof fn lemma_lines(atts: Seq<Tree>, labels: Seq<Seq<char>>, lines: Seq<Seq<char>>)
    requires
        lines.len() == atts.len(),
        forall|i: int|
            0 <= i < atts.len() ==> ((#[trigger] atts[i]).str_at("url"@) matches Some(u) && u.len()
                > 0) && tells_of(lines[i], atts[i], labels[i]),
    ensures
        parse::attachment_lines(atts, labels) == lines,
    decreases atts.len(),
{
    if atts.len() > 0 {
        let front = atts.drop_last();
        let n = atts.len() - 1;
        assert forall|i: int| 0 <= i < front.len() implies ((#[trigger] front[i]).str_at("url"@)
            matches Some(u) && u.len() > 0) && tells_of(lines.drop_last()[i], front[i], labels[i]) by {
            assert(front[i] == atts[i]);
        }
        lemma_lines(front, labels, lines.drop_last());
        assert(atts[n].str_at("url"@) is Some);
        lemma_line(atts[n], labels[n]);
        assert(lines =~= lines.drop_last().push(lines[n]));
    } else {
        assert(parse::attachment_lines(atts, labels) =~= lines);
    }
}

/// Every attachment is told of, in order and each on a line of its own, behind what was written.
pub proof fn attachments_follow_the_text(
    d: Tree,
    bot_user_id: Option<Seq<char>>,
    allowed: Seq<Seq<char>>,
    atts: Seq<Tree>,
    labels: Seq<Seq<char>>,
    lines: Seq<Seq<char>>,
    now: Timestamp,
)
    requires
        of_a_user(d, bot_user_id),
        allowed.len() == 0,
        d.at("attachments"@) == Tree::Array(atts),
        atts.len() > 0,
        lines.len() == atts.len(),
        forall|i: int|
            0 <= i < atts.len() ==> ((#[trigger] atts[i]).str_at("url"@) matches Some(u) && u.len()
                > 0) && tells_of(lines[i], atts[i], labels[i]),
    ensures
        ({
            let told = text::joined(lines, "\n"@);
            parse::discord_message(d, bot_user_id, allowed, labels, now) matches Some(m) && {
                &&& (d.str_at("content"@) matches Some(c) && c.len() > 0 && c[0] != '/')
                    ==> m.content == Some(Incoming::Text(d.str_at("content"@)->0 + "\n\n"@ + told))
                &&& (d.str_at("content"@) matches Some(c) ==> c.len() == 0) ==> m.content == Some(
                    Incoming::Text(told),
                )
            }
        }),
{
    reveal_strlit("");
    reveal_strlit("\n\n");
    reveal_strlit("[Attached image: ");
    reveal_strlit("[Attached file: ");
    lemma_lines(atts, labels, lines);
    let told = text::joined(lines, "\n"@);
    assert(told.len() > 0 && told[0] == '[') by {
        assert(lines[0].len() > 0 && lines[0][0] == '[') by {
            assert(atts[0].str_at("url"@) is Some);
        }
        lemma_first_of_joined(lines, "\n"@);
    }
    let full = parse::full_text(d, labels);
    if d.str_or("content"@, ""@).len() > 0 {
        assert(full[0] == d.str_or("content"@, ""@)[0]);
    }
}

proof fn lemma_first_of_joined(parts: Seq<Seq<char>>, sep: Seq<char>)
    requires
        parts.len() > 0,
        parts[0].len() > 0,
    ensures
        text::joined(parts, sep).len() > 0,
        text::joined(parts, sep)[0] == parts[0][0],
    decreases parts.len(),
{
    if parts.len() > 1 {
        lemma_first_of_joined(parts.drop_last(), sep);
    }
}

/// An attachment without an address is passed over; the others are told of as if it were not there.
pub proof fn attachments_without_address_are_passed_over(
    atts: Seq<Tree>,
    last: Tree,
    labels: Seq<Seq<char>>,
)
    requires
        last.str_at("url"@) matches Some(u) ==> u.len() == 0,
    ensures
        parse::attachment_lines(atts.push(last), labels) == parse::attachment_lines(atts, labels),
{
    reveal_strlit("");
    assert(atts.push(last).drop_last() =~= atts);
}

/// One more attachment adds one more line, behind the others.
pub proof fn attachments_are_told_of_in_order(
    atts: Seq<Tree>,
    last: Tree,
    labels: Seq<Seq<char>>,
    line: Seq<char>,
)
    requires
        last.str_at("url"@) matches Some(u) && u.len() > 0,
        tells_of(line, last, labels[atts.len() as int]),
    ensures
        parse::attachment_lines(atts.push(last), labels) == parse::attachment_lines(
            atts,
            labels,
        ).push(line),
{
    assert(atts.push(last).drop_last() =~= atts);
    lemma_line(last, labels[atts.len() as int]);
}

/// What a message says is what was written, with a line for each attachment behind a blank line, or
/// one of the two alone; where there is neither, nothing is passed on.
pub proof fn text_and_attachments_are_said(
    d: Tree,
    bot_user_id: Option<Seq<char>>,
    allowed: Seq<Seq<char>>,
    i: int,
    atts: Seq<Tree>,
    labels: Seq<Seq<char>>,
    now: Timestamp,
)
    requires
        of_a_user(d, bot_user_id),
        allowed.len() == 0 || d.str_at("guild_id"@) is None || (0 <= i < allowed.len() && d.str_at(
            "guild_id"@,
        ) == Some(allowed[i])),
        d.at("attachments"@) == Tree::Array(atts),
    ensures
        ({
            let lines = parse::attachment_lines(atts, labels);
            let told = text::joined(lines, "\n"@);
            let m = parse::discord_message(d, bot_user_id, allowed, labels, now);
            let written = match d.str_at("content"@) {
                Some(c) => c,
                None => Seq::empty(),
            };
            &&& parse::attachment_lines(Seq::empty(), labels).len() == 0
            &&& written.len() > 0 && lines.len() > 0 ==> (m matches Some(x) && carries(
                x,
                d,
                written + "\n\n"@ + told,
                now,
            ))
            &&& written.len() > 0 && lines.len() == 0 ==> (m matches Some(x) && carries(
                x,
                d,
                written,
                now,
            ))
            &&& written.len() == 0 && told.len() > 0 ==> (m matches Some(x) && carries(
                x,
                d,
                told,
                now,
            ))
            &&& written.len() == 0 && lines.len() == 0 ==> m is None
        }),
{
    reveal_strlit("");
    reveal_strlit("\n\n");
    assert(""@ =~= Seq::<char>::empty());
    assert(parse::guild_allowed(d, allowed)) by {
        if allowed.len() > 0 && d.str_at("guild_id"@) is Some {
            assert(allowed.contains(allowed[i]));
        }
    }
    if parse::full_text(d, labels).len() > 0 {
        lemma_carries(d, bot_user_id, allowed, labels, now);
    }
}

/// Sizes over a million bytes are shown in megabytes, over a thousand in kilobytes, others in bytes.
pub proof fn units_go_by_thousands(size: u64)
    ensures
        size <= 1000 ==> parse::unit_of(size) == parse::SizeUnit::Bytes,
        1000 < size <= 1000 * 1000 ==> parse::unit_of(size) == parse::SizeUnit::Kilobytes,
        size > 1000 * 1000 ==> parse::unit_of(size) == parse::SizeUnit::Megabytes,
{
}

/// The sizes of the attachments are read one by one, zero where none is given.
pub proof fn sizes_are_read_one_by_one(d: Tree, payload: Tree, atts: Seq<Tree>, i: int)
    requires
        d.at("attachments"@) == Tree::Array(atts),
        payload.at("d"@) == d,
        0 <= i < atts.len(),
    ensures
        parse::attachments(d) == atts,
        gateway::payload_sizes(payload).len() == atts.len(),
        atts[i].u64_at("size"@) matches Some(n) ==> gateway::payload_sizes(payload)[i] == n,
        atts[i].u64_at("size"@) is None ==> gateway::payload_sizes(payload)[i] == 0,
{
}

// ---------------------------------------------------------------- interactions

/// The interaction is of a user: it names a channel, and a user who is not the bot.
pub open spec fn asked_by(d: Tree, user: Tree, bot_user_id: Option<Seq<char>>) -> bool {
    &&& d.str_at("channel_id"@) is Some
    &&& user.str_at("id"@) is Some
    &&& user.str_at("id"@) != bot_user_id
    &&& (d.at("member"@).get("user"@) == Some(user) || (d.at("member"@).get("user"@) is None
        && d.get("user"@) == Some(user)))
}

/// The message carries the command of an interaction, for its user and channel.
pub open spec fn carries_command(
    m: MessageView,
    d: Tree,
    user: Tree,
    name: Seq<char>,
    args: Seq<Seq<char>>,
    now: Timestamp,
) -> bool {
    &&& m.channel == ChannelType::Discord
    &&& d.str_at("id"@) is Some ==> Some(m.platform_message_id) == d.str_at("id"@)
    &&& d.str_at("id"@) is None ==> m.platform_message_id == "0"@
    &&& Some(m.sender.platform_id) == d.str_at("channel_id"@)
    &&& user.str_at("username"@) is Some ==> Some(m.sender.display_name) == user.str_at(
        "username"@,
    )
    &&& user.str_at("username"@) is None ==> m.sender.display_name == "Unknown"@
    &&& m.sender.openfang_user is None
    &&& m.target_agent is None
    &&& m.thread_id is None
    &&& m.timestamp == now
    &&& m.is_group == (d.get("guild_id"@) is Some)
    &&& m.content == Some(Incoming::Command { name, args })
}

/// What an interaction is answered with is kept with the message, and nothing else.
pub open spec fn can_be_answered(m: MessageView, d: Tree) -> bool {
    &&& forall|key: Seq<char>| #[trigger]
        m.metadata.dom().contains(key) ==> key == "interaction_id"@ || key == "interaction_token"@
    &&& m.metadata.dom().contains("interaction_id"@)
    &&& m.metadata.dom().contains("interaction_token"@)
    &&& d.str_at("id"@) matches Some(id) ==> m.metadata["interaction_id"@] == Tree::Str(id)
    &&& d.str_at("token"@) matches Some(t) ==> m.metadata["interaction_token"@] == Tree::Str(t)
}

proof fn lemma_metadata_keys()
    ensures
        "interaction_id"@ != "interaction_token"@,
{
    reveal_strlit("interaction_id");
    reveal_strlit("interaction_token");
    assert("interaction_id"@.len() == 14);
    assert("interaction_token"@.len() == 17);
}

/// The values of the options.
pub open spec fn option_values(options: Seq<Tree>) -> Seq<Tree> {
    Seq::new(options.len(), |i: int| options[i].at("value"@))
}

/// A slash command is passed on with its name and with the textual values of all its options, in
/// order.
pub proof fn slash_commands_keep_their_options(
    d: Tree,
    user: Tree,
    bot_user_id: Option<Seq<char>>,
    name: Seq<char>,
    options: Seq<Tree>,
    now: Timestamp,
) -> (at: Seq<int>)
    requires
        asked_by(d, user, bot_user_id),
        d.at("data"@).str_at("name"@) == Some(name),
        d.at("data"@).at("options"@) == Tree::Array(options) || (!(d.at("data"@).at("options"@)
            is Array) && options.len() == 0),
    ensures
        parse::interaction_message(d, bot_user_id, 2, now) matches Some(m) && {
            &&& m.content matches Some(Incoming::Command { args, .. })
            &&& carries_command(m, d, user, name, args, now)
            &&& can_be_answered(m, d)
            &&& picks_texts(option_values(options), args, at)
        },
{
    lemma_metadata_keys();
    let items = parse::items_at(d.at("data"@), "options"@);
    assert(items =~= options);
    assert(items.map_values(|t: Tree| t.at("value"@)) =~= option_values(options));
    lemma_picks(option_values(options))
}

/// A click on a component is passed on with its identifier and with all the values that were chosen,
/// in order.
pub proof fn clicks_keep_their_values(
    d: Tree,
    user: Tree,
    bot_user_id: Option<Seq<char>>,
    id: Seq<char>,
    values: Seq<Tree>,
    now: Timestamp,
) -> (at: Seq<int>)
    requires
        asked_by(d, user, bot_user_id),
        d.at("data"@).str_at("custom_id"@) == Some(id),
        d.at("data"@).at("values"@) == Tree::Array(values) || (!(d.at("data"@).at("values"@)
            is Array) && values.len() == 0),
    ensures
        parse::interaction_message(d, bot_user_id, 3, now) matches Some(m) && {
            &&& m.content matches Some(Incoming::Command { args, .. })
            &&& carries_command(m, d, user, id, args, now)
            &&& can_be_answered(m, d)
            &&& picks_texts(values, args, at)
        },
{
    lemma_metadata_keys();
    assert(parse::items_at(d.at("data"@), "values"@) =~= values);
    lemma_picks(values)
}

/// The fields of the rows of a form, row by row.
pub open spec fn form_values(rows: Seq<Tree>) -> Seq<Tree>
    decreases rows.len(),
{
    if rows.len() == 0 {
        Seq::empty()
    } else {
        form_values(rows.drop_last()) + match rows.last().at("components"@) {
            Tree::Array(fields) => option_values(fields),
            _ => Seq::empty(),
        }
    }
}

proof fn lemma_texts_add(a: Seq<Tree>, b: Seq<Tree>)
    ensures
        parse::texts_among(a + b) == parse::texts_among(a) + parse::texts_among(b),
    decreases b.len(),
{
    if b.len() == 0 {
        assert(a + b =~= a);
        assert(parse::texts_among(a) + Seq::<Seq<char>>::empty() =~= parse::texts_among(a));
    } else {
        lemma_texts_add(a, b.drop_last());
        assert((a + b).drop_last() =~= a + b.drop_last());
        assert((a + b).last() == b.last());
        assert(parse::texts_among(a + b) =~= parse::texts_among(a) + parse::texts_among(b));
    }
}

proof fn lemma_entered(rows: Seq<Tree>)
    ensures
        parse::entered(rows) == parse::texts_among(form_values(rows)),
    decreases rows.len(),
{
    if rows.len() > 0 {
        lemma_entered(rows.drop_last());
        let items = parse::items_at(rows.last(), "components"@);
        let values = match rows.last().at("components"@) {
            Tree::Array(fields) => option_values(fields),
            _ => Seq::empty(),
        };
        assert(items.map_values(|t: Tree| t.at("value"@)) =~= values);
        lemma_texts_add(form_values(rows.drop_last()), values);
    }
}

/// A form is passed on with its identifier and with all that was entered, field by field and row by
/// row.
pub proof fn forms_keep_what_was_entered(
    d: Tree,
    user: Tree,
    bot_user_id: Option<Seq<char>>,
    id: Seq<char>,
    rows: Seq<Tree>,
    now: Timestamp,
) -> (at: Seq<int>)
    requires
        asked_by(d, user, bot_user_id),
        d.at("data"@).str_at("custom_id"@) == Some(id),
        d.at("data"@).at("components"@) == Tree::Array(rows) || (!(d.at("data"@).at("components"@)
            is Array) && rows.len() == 0),
    ensures
        parse::modal_message(d, bot_user_id, now) matches Some(m) && {
            &&& m.metadata == Map::<Seq<char>, Tree>::empty()
            &&& m.content matches Some(Incoming::Command { args, .. })
            &&& carries_command(m, d, user, id, args, now)
            &&& picks_texts(form_values(rows), args, at)
        },
{
    lemma_entered(rows);
    assert(parse::items_at(d.at("data"@), "components"@) =~= rows);
    lemma_picks(form_values(rows))
}

/// Nothing is passed on of an interaction without a channel, of one without a user, and of the bot's
/// own.
pub proof fn other_interactions_are_dropped(
    d: Tree,
    bot_user_id: Option<Seq<char>>,
    kind: u64,
    now: Timestamp,
)
    requires
        ({
            let user = match d.at("member"@).get("user"@) {
                Some(u) => u,
                None => d.at("user"@),
            };
            d.str_at("channel_id"@) is None || user.str_at("id"@) is None || user.str_at("id"@)
                == bot_user_id || d.get("data"@) is None
        }),
    ensures
        parse::interaction_message(d, bot_user_id, kind, now) is None,
        parse::modal_message(d, bot_user_id, now) is None,
{
}

/// Nothing is passed on of a command without a name, of a component or a form without an identifier,
/// and of an interaction of another kind.
pub proof fn nameless_interactions_are_dropped(
    d: Tree,
    bot_user_id: Option<Seq<char>>,
    kind: u64,
    now: Timestamp,
)
    ensures
        d.at("data"@).str_at("name"@) is None ==> parse::interaction_message(
            d,
            bot_user_id,
            2,
            now,
        ) is None,
        d.at("data"@).str_at("custom_id"@) is None ==> parse::interaction_message(
            d,
            bot_user_id,
            3,
            now,
        ) is None,
        d.at("data"@).str_at("custom_id"@) is None ==> parse::modal_message(
            d,
            bot_user_id,
            now,
        ) is None,
        kind != 2 && kind != 3 ==> parse::interaction_message(d, bot_user_id, kind, now) is None,
{
}

} // verus!
