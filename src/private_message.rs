//! Decoding of raw protocol lines into structured messages.
use vstd::prelude::*;
use crate::bot_command::{BotCommand, opt_view, param_words};
use crate::text::{
    index_of, split_on, words, is_space, join_spaced, views, lemma_split_on_nonempty, find_char, slice,
    split_chars, split_words, same_text, join_words, chars_of, text_of, lemma_words_are_words,
    lemma_words_of_joined,
};

verus! {

/// One `start-end` span of an emote, as written in the line.
pub struct EmotePosition {
    pub start_position: String,
    pub end_position: String,
}

/// An emote id with the spans where it occurs.
pub struct Emote {
    pub id: String,
    pub positions: Vec<EmotePosition>,
}

/// A badge name with its tier.
pub struct Badge {
    pub name: String,
    pub tier: String,
}

/// The value of a tag: plain text, or the decoded `badges` / `emotes` structures.
pub enum TagValue {
    Text(String),
    Badges(Vec<Badge>),
    Emotes(Vec<Emote>),
}

/// One `key=value` entry of the tag block.
pub struct Tag {
    pub key: String,
    pub value: TagValue,
}

/// The sender part of a line: `nick!host` or a bare host.
pub struct Source {
    pub nick: Option<String>,
    pub host: String,
}

/// A recognised protocol verb with the fields it carries.
pub struct Command {
    pub command: String,
    pub channel: Option<String>,
    pub is_cap_request_enabled: Option<bool>,
    pub bot_command: Option<BotCommand>,
}

/// A decoded protocol line.
pub struct PrivateMessageRequest {
    pub tags: Option<Vec<Tag>>,
    pub source: Option<Source>,
    pub command: Option<Command>,
    pub parameters: Option<String>,
}

/// A span as two texts.
pub type SpanModel = (Seq<char>, Seq<char>);

/// The meaning of a tag value.
pub enum TagModel {
    Text(Seq<char>),
    Badges(Seq<(Seq<char>, Seq<char>)>),
    Emotes(Seq<(Seq<char>, Seq<SpanModel>)>),
}

/// The meaning of a decoded command.
pub struct CommandModel {
    pub verb: Seq<char>,
    pub channel: Option<Seq<char>>,
    pub cap_ack: Option<bool>,
    pub bot: Option<(Seq<char>, Option<Seq<char>>)>,
}

/// The meaning of a decoded line.
pub struct MessageModel {
    pub tags: Option<Seq<(Seq<char>, TagModel)>>,
    pub source: Option<(Option<Seq<char>>, Seq<char>)>,
    pub command: Option<CommandModel>,
    pub parameters: Option<Seq<char>>,
}

impl View for EmotePosition {
    type V = SpanModel;

    open spec fn view(&self) -> SpanModel {
        (self.start_position@, self.end_position@)
    }
}

impl View for Emote {
    type V = (Seq<char>, Seq<SpanModel>);

    open spec fn view(&self) -> (Seq<char>, Seq<SpanModel>) {
        (self.id@, self.positions@.map_values(|p: EmotePosition| p@))
    }
}

impl View for Badge {
    type V = (Seq<char>, Seq<char>);

    open spec fn view(&self) -> (Seq<char>, Seq<char>) {
        (self.name@, self.tier@)
    }
}

impl View for TagValue {
    type V = TagModel;

    open spec fn view(&self) -> TagModel {
        match self {
            TagValue::Text(s) => TagModel::Text(s@),
            TagValue::Badges(b) => TagModel::Badges(b@.map_values(|x: Badge| x@)),
            TagValue::Emotes(e) => TagModel::Emotes(e@.map_values(|x: Emote| x@)),
        }
    }
}

impl View for Tag {
    type V = (Seq<char>, TagModel);

    open spec fn view(&self) -> (Seq<char>, TagModel) {
        (self.key@, self.value@)
    }
}

impl View for Source {
    type V = (Option<Seq<char>>, Seq<char>);

    open spec fn view(&self) -> (Option<Seq<char>>, Seq<char>) {
        (opt_view(self.nick), self.host@)
    }
}

impl View for Command {
    type V = CommandModel;

    open spec fn view(&self) -> CommandModel {
        CommandModel {
            verb: self.command@,
            channel: opt_view(self.channel),
            cap_ack: self.is_cap_request_enabled,
            bot: match self.bot_command {
                Some(b) => Some(b@),
                None => None,
            },
        }
    }
}

/// The meaning of a list of tags.
pub open spec fn tags_view(t: Seq<Tag>) -> Seq<(Seq<char>, TagModel)> {
    t.map_values(|x: Tag| x@)
}

impl View for PrivateMessageRequest {
    type V = MessageModel;

    open spec fn view(&self) -> MessageModel {
        MessageModel {
            tags: match self.tags {
                Some(t) => Some(tags_view(t@)),
                None => None,
            },
            source: match self.source {
                Some(s) => Some(s@),
                None => None,
            },
            command: match self.command {
                Some(c) => Some(c@),
                None => None,
            },
            parameters: opt_view(self.parameters),
        }
    }
}

/// A badge entry `name/tier`; entries without `/` carry no badge.
pub open spec fn badge_of(piece: Seq<char>) -> Option<(Seq<char>, Seq<char>)> {
    let i = index_of(piece, '/');
    if i < 0 {
        None
    } else {
        Some((piece.take(i), piece.skip(i + 1)))
    }
}

/// The badges of the comma-separated entries, in order, skipping entries without `/`.
pub open spec fn badges_of(pieces: Seq<Seq<char>>) -> Seq<(Seq<char>, Seq<char>)>
    decreases pieces.len(),
{
    if pieces.len() == 0 {
        Seq::empty()
    } else {
        let r = badges_of(pieces.drop_last());
        match badge_of(pieces.last()) {
            Some(b) => r.push(b),
            None => r,
        }
    }
}

/// A span `start-end`; a span without `-` has an empty end.
pub open spec fn span_of(pos: Seq<char>) -> SpanModel {
    let p = split_on(pos, '-');
    (p[0], if p.len() > 1 { p[1] } else { Seq::empty() })
}

/// An emote entry `id:span,span,...`; an entry without `:` has no spans.
pub open spec fn emote_of(piece: Seq<char>) -> (Seq<char>, Seq<SpanModel>) {
    let p = split_on(piece, ':');
    (
        p[0],
        if p.len() > 1 {
            split_on(p[1], ',').map_values(|x: Seq<char>| span_of(x))
        } else {
            Seq::empty()
        },
    )
}

/// The value stored under `key`: `badges` and `emotes` are decoded, the rest kept as text.
pub open spec fn tag_value_of(key: Seq<char>, value: Seq<char>) -> TagModel {
    if key == "badges"@ {
        TagModel::Badges(badges_of(split_on(value, ',')))
    } else if key == "emotes"@ {
        TagModel::Emotes(split_on(value, '/').map_values(|e: Seq<char>| emote_of(e)))
    } else {
        TagModel::Text(value)
    }
}

/// A tag `key=value`, split at the first `=`; without `=` the value is empty.
pub open spec fn tag_of(t: Seq<char>) -> (Seq<char>, TagModel) {
    let i = index_of(t, '=');
    let key = if i < 0 { t } else { t.take(i) };
    let value = if i < 0 { Seq::empty() } else { t.skip(i + 1) };
    (key, tag_value_of(key, value))
}

/// The tags of a tag block (without its leading `@`), in order.
pub open spec fn tags_of(block: Seq<char>) -> Seq<(Seq<char>, TagModel)> {
    split_on(block, ';').map_values(|t: Seq<char>| tag_of(t))
}

/// The source `nick!host`; any other shape is a bare host (the first `!`-piece).
pub open spec fn source_of(raw: Seq<char>) -> (Option<Seq<char>>, Seq<char>) {
    let p = split_on(raw, '!');
    if p.len() == 2 {
        (Some(p[0]), p[1])
    } else {
        (None, p[0])
    }
}

/// Verbs whose second word is a channel.
pub open spec fn is_channel_verb(v: Seq<char>) -> bool {
    v == "JOIN"@ || v == "PART"@ || v == "NOTICE"@ || v == "CLEARCHAT"@ || v == "HOSTTARGET"@
        || v == "PRIVMSG"@ || v == "USERSTATE"@ || v == "ROOMSTATE"@ || v == "001"@
}

/// Verbs that carry nothing besides themselves.
pub open spec fn is_bare_verb(v: Seq<char>) -> bool {
    v == "PING"@ || v == "GLOBALUSERSTATE"@ || v == "RECONNECT"@
}

/// The command segment decoded: recognised verbs only.
pub open spec fn command_of(raw: Seq<char>) -> Option<CommandModel> {
    let w = words(raw);
    if w.len() == 0 {
        None
    } else if is_channel_verb(w[0]) {
        Some(
            CommandModel {
                verb: w[0],
                channel: if w.len() > 1 { Some(w[1]) } else { None },
                cap_ack: None,
                bot: None,
            },
        )
    } else if is_bare_verb(w[0]) {
        Some(CommandModel { verb: w[0], channel: None, cap_ack: None, bot: None })
    } else if w[0] == "CAP"@ {
        Some(
            CommandModel {
                verb: w[0],
                channel: None,
                cap_ack: Some(w.len() > 2 && w[2] == "ACK"@),
                bot: None,
            },
        )
    } else {
        None
    }
}

/// A bot command `!token params...`: the first word after the leading character is the token
/// (empty when there is none), the remaining words joined by single spaces are its parameters.
pub open spec fn bot_command_of(p: Seq<char>) -> (Seq<char>, Option<Seq<char>>) {
    let w = words(p.skip(1));
    (
        if w.len() > 0 { w[0] } else { Seq::empty() },
        if w.len() > 1 { Some(join_spaced(w.skip(1))) } else { None },
    )
}

/// Re-splitting the parameters of a bot command gives back the words that followed its token:
/// the words after the leading character are the token followed by the words of the
/// parameters, whatever whitespace separated them.
pub proof fn lemma_parameters_round_trip(p: Seq<char>)
    ensures
        words(p.skip(1)).len() > 0 ==> words(p.skip(1)) == seq![bot_command_of(p).0]
            + param_words(bot_command_of(p).1),
        words(p.skip(1)).len() == 0 ==> bot_command_of(p) == (Seq::<char>::empty(), None::<Seq<char>>),
{
    let w = words(p.skip(1));
    if w.len() > 1 {
        lemma_words_are_words(p.skip(1));
        assert forall|i: int| 0 <= i < w.skip(1).len() implies #[trigger] w.skip(1)[i].len() > 0
            && forall|j: int| 0 <= j < w.skip(1)[i].len() ==> !is_space(#[trigger] w.skip(1)[i][j]) by {
            assert(w.skip(1)[i] == w[i + 1]);
        }
        lemma_words_of_joined(w.skip(1));
    }
    if w.len() > 0 {
        assert(seq![w[0]] + param_words(bot_command_of(p).1) =~= w);
    }
}

/// Where the tag block ends and the rest of the line begins: `(tags, start of rest)`.
pub open spec fn tags_segment(s: Seq<char>) -> (Option<Seq<(Seq<char>, TagModel)>>, int) {
    let e = index_of(s, ' ');
    if s.len() > 0 && s[0] == '@' && e >= 0 {
        (Some(tags_of(s.subrange(1, e))), e + 1)
    } else {
        (None, 0)
    }
}

/// The source that follows the tag block at `i0`, and where the rest begins.
pub open spec fn source_segment(s: Seq<char>, i0: int) -> (Option<(Option<Seq<char>>, Seq<char>)>, int) {
    let rest = s.skip(i0);
    let e = index_of(rest, ' ');
    if rest.len() > 0 && rest[0] == ':' && e >= 0 {
        (Some(source_of(rest.subrange(1, e))), i0 + e + 1)
    } else {
        (None, i0)
    }
}

/// Where the command segment that starts at `i1` ends: at the next `:`, or the end of line.
pub open spec fn command_end(s: Seq<char>, i1: int) -> int {
    let c = index_of(s.skip(i1), ':');
    if c >= 0 {
        i1 + c
    } else {
        s.len() as int
    }
}

/// The whole line decoded.
pub open spec fn message_of(s: Seq<char>) -> MessageModel {
    let (tags, i0) = tags_segment(s);
    let (source, i1) = source_segment(s, i0);
    let ce = command_end(s, i1);
    let command = command_of(s.subrange(i1, ce));
    let parameters = if ce < s.len() { Some(s.skip(ce + 1)) } else { None };
    let command = match command {
        Some(c) => match parameters {
            Some(p) => if p.len() > 0 && p[0] == '!' {
                Some(CommandModel { bot: Some(bot_command_of(p)), ..c })
            } else {
                Some(c)
            },
            None => Some(c),
        },
        None => None,
    };
    MessageModel { tags, source, command, parameters }
}

/// The badges of a `badges` tag value.
fn parse_badges(value: &Vec<char>) -> (r: Vec<Badge>)
    ensures
        r@.map_values(|x: Badge| x@) == badges_of(split_on(value@, ',')),
{
    let pieces = split_chars(value, ',');
    let mut out: Vec<Badge> = Vec::new();
    let mut i: usize = 0;
    while i < pieces.len()
        invariant
            i <= pieces@.len(),
            views(pieces@) == split_on(value@, ','),
            out@.map_values(|x: Badge| x@) == badges_of(views(pieces@).take(i as int)),
        decreases pieces@.len() - i,
    {
        let ghost ps = views(pieces@).take(i + 1);
        assert(ps.drop_last() =~= views(pieces@).take(i as int));
        let piece = &pieces[i];
        assert(piece@ == ps.last());
        let ghost before = out@.map_values(|x: Badge| x@);
        let n = piece.len();
        match find_char(piece, '/') {
            Some(k) => {
                let b = Badge {
                    name: text_of(slice(piece, 0, k).as_slice()),
                    tier: text_of(slice(piece, k + 1, n).as_slice()),
                };
                assert(piece@.take(k as int) =~= piece@.subrange(0, k as int));
                assert(piece@.skip(k + 1) =~= piece@.subrange(k + 1, piece@.len() as int));
                out.push(b);
                assert(out@.map_values(|x: Badge| x@) =~= before.push(b@));
            },
            None => {},
        }
        i += 1;
    }
    assert(views(pieces@).take(i as int) =~= views(pieces@));
    out
}

/// The span written as `start-end`.
fn parse_span(pos: &Vec<char>) -> (r: EmotePosition)
    ensures
        r@ == span_of(pos@),
{
    let parts = split_chars(pos, '-');
    proof {
        lemma_split_on_nonempty(pos@, '-');
    }
    let start = text_of(parts[0].as_slice());
    let end = if parts.len() > 1 {
        text_of(parts[1].as_slice())
    } else {
        String::new()
    };
    EmotePosition { start_position: start, end_position: end }
}

/// The emote written as `id:span,span,...`.
fn parse_emote(piece: &Vec<char>) -> (r: Emote)
    ensures
        r@ == emote_of(piece@),
{
    let parts = split_chars(piece, ':');
    proof {
        lemma_split_on_nonempty(piece@, ':');
    }
    let id = text_of(parts[0].as_slice());
    let mut positions: Vec<EmotePosition> = Vec::new();
    if parts.len() > 1 {
        let spans = split_chars(&parts[1], ',');
        let ghost target = split_on(parts@[1]@, ',').map_values(|x: Seq<char>| span_of(x));
        let mut i: usize = 0;
        while i < spans.len()
            invariant
                i <= spans@.len(),
                parts@.len() > 1,
                views(spans@) == split_on(parts@[1]@, ','),
                target == split_on(parts@[1]@, ',').map_values(|x: Seq<char>| span_of(x)),
                positions@.map_values(|p: EmotePosition| p@) == target.take(i as int),
            decreases spans@.len() - i,
        {
            assert(views(spans@)[i as int] == spans@[i as int]@);
            let sp = parse_span(&spans[i]);
            let ghost before = positions@.map_values(|p: EmotePosition| p@);
            positions.push(sp);
            assert(positions@.map_values(|p: EmotePosition| p@) =~= before.push(sp@));
            assert(target[i as int] == sp@);
            assert(target.take(i + 1) =~= target.take(i as int).push(target[i as int]));
            i += 1;
        }
        assert(target.take(i as int) =~= target);
    } else {
        assert(positions@.map_values(|p: EmotePosition| p@) =~= Seq::<SpanModel>::empty());
    }
    Emote { id, positions }
}

/// The emotes of an `emotes` tag value.
fn parse_emotes(value: &Vec<char>) -> (r: Vec<Emote>)
    ensures
        r@.map_values(|x: Emote| x@) == split_on(value@, '/').map_values(
            |e: Seq<char>| emote_of(e),
        ),
{
    let pieces = split_chars(value, '/');
    let ghost target = split_on(value@, '/').map_values(|e: Seq<char>| emote_of(e));
    let mut out: Vec<Emote> = Vec::new();
    let mut i: usize = 0;
    while i < pieces.len()
        invariant
            i <= pieces@.len(),
            views(pieces@) == split_on(value@, '/'),
            target == split_on(value@, '/').map_values(|e: Seq<char>| emote_of(e)),
            out@.map_values(|x: Emote| x@) == target.take(i as int),
        decreases pieces@.len() - i,
    {
        assert(views(pieces@)[i as int] == pieces@[i as int]@);
        let e = parse_emote(&pieces[i]);
        let ghost before = out@.map_values(|x: Emote| x@);
        out.push(e);
        assert(out@.map_values(|x: Emote| x@) =~= before.push(e@));
        assert(target[i as int] == e@);
        assert(target.take(i + 1) =~= target.take(i as int).push(target[i as int]));
        i += 1;
    }
    assert(target.take(i as int) =~= target);
    out
}

/// One tag `key=value`.
fn parse_tag(t: &Vec<char>) -> (r: Tag)
    ensures
        r@ == tag_of(t@),
{
    let n = t.len();
    let (key, value) = match find_char(t, '=') {
        Some(k) => {
            assert(t@.take(k as int) =~= t@.subrange(0, k as int));
            assert(t@.skip(k + 1) =~= t@.subrange(k + 1, n as int));
            (slice(t, 0, k), slice(t, k + 1, n))
        },
        None => (slice(t, 0, n), Vec::new()),
    };
    assert(t@.subrange(0, n as int) =~= t@);
    let v = if same_text(&key, "badges") {
        TagValue::Badges(parse_badges(&value))
    } else if same_text(&key, "emotes") {
        TagValue::Emotes(parse_emotes(&value))
    } else {
        TagValue::Text(text_of(value.as_slice()))
    };
    Tag { key: text_of(key.as_slice()), value: v }
}

/// The tags of a tag block, in order.
fn parse_tags(block: &Vec<char>) -> (r: Vec<Tag>)
    ensures
        tags_view(r@) == tags_of(block@),
{
    let pieces = split_chars(block, ';');
    let ghost target = tags_of(block@);
    let mut out: Vec<Tag> = Vec::new();
    let mut i: usize = 0;
    while i < pieces.len()
        invariant
            i <= pieces@.len(),
            views(pieces@) == split_on(block@, ';'),
            target == tags_of(block@),
            tags_view(out@) == target.take(i as int),
        decreases pieces@.len() - i,
    {
        assert(views(pieces@)[i as int] == pieces@[i as int]@);
        let t = parse_tag(&pieces[i]);
        let ghost before = tags_view(out@);
        out.push(t);
        assert(tags_view(out@) =~= before.push(t@));
        assert(target[i as int] == t@);
        assert(target.take(i + 1) =~= target.take(i as int).push(target[i as int]));
        i += 1;
    }
    assert(target.take(i as int) =~= target);
    out
}

fn source_from(raw: &Vec<char>) -> (r: Source)
    ensures
        r@ == source_of(raw@),
{
    let parts = split_chars(raw, '!');
    proof {
        lemma_split_on_nonempty(raw@, '!');
    }
    assert(parts@[0]@ == views(parts@)[0]);
    if parts.len() == 2 {
        assert(parts@[1]@ == views(parts@)[1]);
        Source { nick: Some(text_of(parts[0].as_slice())), host: text_of(parts[1].as_slice()) }
    } else {
        Source { nick: None, host: text_of(parts[0].as_slice()) }
    }
}

/// Decodes a source segment `nick!host` (or a bare host).
pub fn parse_source(raw_source_component: &str) -> (r: Source)
    ensures
        r@ == source_of(raw_source_component@),
{
    source_from(&chars_of(raw_source_component))
}

/// The meaning of an optional command.
pub open spec fn command_view(c: Option<Command>) -> Option<CommandModel> {
    match c {
        Some(c) => Some(c@),
        None => None,
    }
}

fn channel_verb(v: &Vec<char>) -> (r: bool)
    ensures
        r == is_channel_verb(v@),
{
    same_text(v, "JOIN") || same_text(v, "PART") || same_text(v, "NOTICE") || same_text(
        v,
        "CLEARCHAT",
    ) || same_text(v, "HOSTTARGET") || same_text(v, "PRIVMSG") || same_text(v, "USERSTATE")
        || same_text(v, "ROOMSTATE") || same_text(v, "001")
}

fn bare_verb(v: &Vec<char>) -> (r: bool)
    ensures
        r == is_bare_verb(v@),
{
    same_text(v, "PING") || same_text(v, "GLOBALUSERSTATE") || same_text(v, "RECONNECT")
}

fn command_from(raw: &Vec<char>) -> (r: Option<Command>)
    ensures
        command_view(r) == command_of(raw@),
{
    let w = split_words(raw);
    if w.len() == 0 {
        return None;
    }
    assert(w@[0]@ == views(w@)[0]);
    let verb = &w[0];
    if channel_verb(verb) {
        let channel = if w.len() > 1 {
            assert(w@[1]@ == views(w@)[1]);
            Some(text_of(w[1].as_slice()))
        } else {
            None
        };
        Some(
            Command {
                command: text_of(verb.as_slice()),
                channel,
                is_cap_request_enabled: None,
                bot_command: None,
            },
        )
    } else if bare_verb(verb) {
        Some(
            Command {
                command: text_of(verb.as_slice()),
                channel: None,
                is_cap_request_enabled: None,
                bot_command: None,
            },
        )
    } else if same_text(verb, "CAP") {
        let ack = if w.len() > 2 {
            assert(w@[2]@ == views(w@)[2]);
            same_text(&w[2], "ACK")
        } else {
            false
        };
        Some(
            Command {
                command: text_of(verb.as_slice()),
                channel: None,
                is_cap_request_enabled: Some(ack),
                bot_command: None,
            },
        )
    } else {
        None
    }
}

/// Decodes a command segment: the verb and the fields its group carries; `None` for any
/// verb outside the recognised groups, and for a segment with no words.
pub fn parse_command(raw_command_component: &str) -> (r: Option<Command>)
    ensures
        command_view(r) == command_of(raw_command_component@),
{
    command_from(&chars_of(raw_command_component))
}

fn bot_command_from(p: &Vec<char>) -> (r: BotCommand)
    requires
        p@.len() > 0,
    ensures
        r@ == bot_command_of(p@),
{
    let rest = slice(p, 1, p.len());
    assert(rest@ =~= p@.skip(1));
    let mut w = split_words(&rest);
    let token = if w.len() > 0 {
        assert(w@[0]@ == views(w@)[0]);
        text_of(w[0].as_slice())
    } else {
        String::new()
    };
    let params = if w.len() > 1 {
        let ghost all = w@;
        let tail = w.split_off(1);
        assert(views(tail@) =~= views(all).skip(1));
        Some(text_of(join_words(&tail).as_slice()))
    } else {
        None
    };
    BotCommand { command: token, command_params: params }
}

/// Splits a `!token params...` text into the token and the remaining words joined by single
/// spaces (`None` when there are none).
pub fn parse_parameters(params: &str) -> (r: (String, Option<String>))
    requires
        params@.len() > 0,
    ensures
        (r.0@, opt_view(r.1)) == bot_command_of(params@),
{
    let b = bot_command_from(&chars_of(params));
    (b.command, b.command_params)
}

impl PrivateMessageRequest {
    /// Decodes one protocol line. Decoding never fails: missing segments stay empty.
    pub fn new(raw_message: &str) -> (r: PrivateMessageRequest)
        ensures
            r@ == message_of(raw_message@),
    {
        let s = chars_of(raw_message);
        let n = s.len();
        let mut idx: usize = 0;
        let mut tags: Option<Vec<Tag>> = None;
        if n > 0 && s[0] == '@' {
            match find_char(&s, ' ') {
                Some(e) => {
                    assert(e >= 1);
                    tags = Some(parse_tags(&slice(&s, 1, e)));
                    idx = e + 1;
                },
                None => {},
            }
        }
        assert(tags_segment(s@).1 == idx as int);
        let rest = slice(&s, idx, n);
        assert(rest@ =~= s@.skip(idx as int));
        let mut source: Option<Source> = None;
        if rest.len() > 0 && rest[0] == ':' {
            match find_char(&rest, ' ') {
                Some(e) => {
                    source = Some(source_from(&slice(&rest, 1, e)));
                    idx = idx + e + 1;
                },
                None => {},
            }
        }
        let rest = slice(&s, idx, n);
        assert(rest@ =~= s@.skip(idx as int));
        let command_end: usize = match find_char(&rest, ':') {
            Some(c) => idx + c,
            None => n,
        };
        let mut command = command_from(&slice(&s, idx, command_end));
        let parameters = if command_end < n {
            Some(slice(&s, command_end + 1, n))
        } else {
            None
        };
        match &parameters {
            Some(p) => {
                assert(p@ =~= s@.skip(command_end + 1));
                if p.len() > 0 && p[0] == '!' {
                    match command {
                        Some(c) => {
                            command = Some(Command { bot_command: Some(bot_command_from(p)), ..c });
                        },
                        None => {},
                    }
                }
            },
            None => {},
        }
        let parameters = match parameters {
            Some(p) => Some(text_of(p.as_slice())),
            None => None,
        };
        PrivateMessageRequest { tags, source, command, parameters }
    }
}

/// A chat message to send: `PRIVMSG <channel> :<message>`.
pub struct PrivateMessageResponse {
    channel: String,
    message: String,
}

impl View for PrivateMessageResponse {
    type V = (Seq<char>, Seq<char>);

    closed spec fn view(&self) -> (Seq<char>, Seq<char>) {
        (self.channel@, self.message@)
    }
}

/// The protocol line that sends `message` to `channel`.
pub open spec fn privmsg_line(channel: Seq<char>, message: Seq<char>) -> Seq<char> {
    "PRIVMSG "@ + channel + " :"@ + message
}

impl PrivateMessageResponse {
    /// A message for `channel`.
    pub fn from(channel: &str, message: &str) -> (r: Self)
        ensures
            r@ == (channel@, message@),
    {
        PrivateMessageResponse { channel: String::from_str(channel), message: String::from_str(message) }
    }

    /// The protocol line for this message.
    pub fn to_line(&self) -> (r: String)
        ensures
            r@ == privmsg_line(self@.0, self@.1),
    {
        let mut r = String::from_str("PRIVMSG ");
        r.append(self.channel.as_str());
        r.append(" :");
        r.append(self.message.as_str());
        r
    }
}

} // verus!
