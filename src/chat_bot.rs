//! What the bot answers to each decoded line.
use vstd::prelude::*;
use crate::bot_command::{BotCommand, dispatched};
use crate::command_parser::Commands;
use crate::cooldown::CooldownTable;
use crate::private_message::{
    PrivateMessageRequest, Tag, TagModel, TagValue, tags_view, MessageModel,
};
use crate::text::{chars_of, same_text};

verus! {

/// Position of the last tag named `key` (a later tag overrides an earlier one), or -1.
pub open spec fn last_tag_index(ts: Seq<(Seq<char>, TagModel)>, key: Seq<char>) -> int
    decreases ts.len(),
{
    if ts.len() == 0 {
        -1
    } else if ts.last().0 == key {
        ts.len() - 1
    } else {
        last_tag_index(ts.drop_last(), key)
    }
}

/// The text of the `display-name` tag, if there is one holding text.
pub open spec fn display_name_of(tags: Option<Seq<(Seq<char>, TagModel)>>) -> Option<Seq<char>> {
    match tags {
        None => None,
        Some(ts) => {
            let i = last_tag_index(ts, "display-name"@);
            if 0 <= i < ts.len() {
                match ts[i].1 {
                    TagModel::Text(s) => Some(s),
                    _ => None,
                }
            } else {
                None
            }
        },
    }
}

/// The reply to a liveness probe carrying `payload`.
pub open spec fn pong_line(payload: Seq<char>) -> Seq<char> {
    "PONG "@ + payload
}

/// The outcome of handling a decoded line `m` at `now`: the line sent back, if any, and the
/// table `after` that follows `before`.
pub open spec fn handled(
    commands: Seq<crate::command_parser::Command>,
    m: MessageModel,
    now: u64,
    before: CooldownTable,
    after: CooldownTable,
    reply: Option<Seq<char>>,
) -> bool {
    match m.command {
        Some(c) => if c.verb == "PRIVMSG"@ {
            match (c.bot, c.channel, display_name_of(m.tags)) {
                (Some(b), Some(ch), Some(d)) => dispatched(
                    commands,
                    b,
                    d,
                    ch,
                    now,
                    before,
                    after,
                    reply,
                ),
                _ => reply is None && after == before,
            }
        } else if c.verb == "PING"@ {
            &&& after == before
            &&& reply == match m.parameters {
                Some(p) => Some(pong_line(p)),
                None => None,
            }
        } else {
            reply is None && after == before
        },
        None => reply is None && after == before,
    }
}

/// The optional text as a sequence.
pub open spec fn line_view(r: Option<String>) -> Option<Seq<char>> {
    match r {
        Some(s) => Some(s@),
        None => None,
    }
}

/// The `display-name` tag's text, if any.
pub fn display_name(tags: &Option<Vec<Tag>>) -> (r: Option<&String>)
    ensures
        match r {
            Some(s) => display_name_of(
                match tags {
                    Some(t) => Some(tags_view(t@)),
                    None => None,
                },
            ) == Some(s@),
            None => display_name_of(
                match tags {
                    Some(t) => Some(tags_view(t@)),
                    None => None,
                },
            ) is None,
        },
{
    match tags {
        None => None,
        Some(ts) => {
            let mut found: Option<usize> = None;
            let mut i: usize = 0;
            while i < ts.len()
                invariant
                    i <= ts@.len(),
                    last_tag_index(tags_view(ts@).take(i as int), "display-name"@) < 0
                        <==> found is None,
                    found matches Some(j) ==> j == last_tag_index(
                        tags_view(ts@).take(i as int),
                        "display-name"@,
                    ) && j < i,
                decreases ts@.len() - i,
            {
                assert(tags_view(ts@).take(i + 1).drop_last() =~= tags_view(ts@).take(i as int));
                assert(tags_view(ts@).take(i + 1).last() == ts@[i as int]@);
                if same_text(&chars_of(ts[i].key.as_str()), "display-name") {
                    found = Some(i);
                }
                i += 1;
            }
            assert(tags_view(ts@).take(i as int) =~= tags_view(ts@));
            match found {
                Some(j) => {
                    assert(tags_view(ts@)[j as int] == ts@[j as int]@);
                    match &ts[j].value {
                        TagValue::Text(s) => Some(s),
                        _ => None,
                    }
                },
                None => None,
            }
        },
    }
}

/// Dispatches a bot command from a message with `tags` on `channel`; without a
/// `display-name` tag there is no reply and the table is unchanged.
pub fn handle_bot_command(
    bot_command: &BotCommand,
    tags: &Option<Vec<Tag>>,
    channel: &str,
    commands: &Commands,
    last_triggers: &mut CooldownTable,
    now: u64,
) -> (r: Option<String>)
    ensures
        match display_name_of(
            match tags {
                Some(t) => Some(tags_view(t@)),
                None => None,
            },
        ) {
            Some(d) => dispatched(
                commands@,
                bot_command@,
                d,
                channel@,
                now,
                *old(last_triggers),
                *final(last_triggers),
                line_view(r),
            ),
            None => r is None && *final(last_triggers) == *old(last_triggers),
        },
{
    match display_name(tags) {
        Some(d) => {
            match bot_command.parse(d.as_str(), channel, commands, last_triggers, now) {
                Some(m) => Some(m.to_line()),
                None => None,
            }
        },
        None => None,
    }
}

/// The reply to one decoded line at `now` (Unix seconds): a bot command in a channel message
/// is dispatched, a liveness probe is answered with `PONG` and its payload, and anything
/// else gets no reply.
pub fn handle_message(
    private_message_request: &PrivateMessageRequest,
    commands: &Commands,
    last_triggers: &mut CooldownTable,
    now: u64,
) -> (r: Option<String>)
    ensures
        handled(
            commands@,
            private_message_request@,
            now,
            *old(last_triggers),
            *final(last_triggers),
            line_view(r),
        ),
{
    match &private_message_request.command {
        None => None,
        Some(command) => {
            let verb = chars_of(command.command.as_str());
            if same_text(&verb, "PRIVMSG") {
                match (&command.bot_command, &command.channel) {
                    (Some(b), Some(ch)) => handle_bot_command(
                        b,
                        &private_message_request.tags,
                        ch.as_str(),
                        commands,
                        last_triggers,
                        now,
                    ),
                    _ => None,
                }
            } else if same_text(&verb, "PING") {
                match &private_message_request.parameters {
                    Some(p) => {
                        let mut line = String::from_str("PONG ");
                        line.append(p.as_str());
                        Some(line)
                    },
                    None => None,
                }
            } else {
                None
            }
        },
    }
}

} // verus!
