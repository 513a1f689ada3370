//! The bot-command token carried by a chat message, and its dispatch.
use vstd::prelude::*;
use crate::command_parser::{Command, Commands, named_placeholders, placeholders_without_sender, texts};
use crate::cooldown::{CooldownTable, cooldown_passed};
use crate::private_message::{PrivateMessageResponse, privmsg_line};
use crate::text::{
    chars_of, text_of, same_text, split_words, replace_chars, words, views, replace_all,
};

verus! {

/// A `!token params...` request found at the start of a chat message.
pub struct BotCommand {
    pub command: String,
    pub command_params: Option<String>,
}

impl View for BotCommand {
    type V = (Seq<char>, Option<Seq<char>>);

    open spec fn view(&self) -> (Seq<char>, Option<Seq<char>>) {
        (self.command@, opt_view(self.command_params))
    }
}

/// The view of an optional text.
pub open spec fn opt_view(o: Option<String>) -> Option<Seq<char>> {
    match o {
        Some(s) => Some(s@),
        None => None,
    }
}

/// The first word of a definition's name: the token that selects it (empty when none).
pub open spec fn first_word(name: Seq<char>) -> Seq<char> {
    if words(name).len() > 0 {
        words(name)[0]
    } else {
        Seq::empty()
    }
}

/// Position of the first definition selected by `token`, or -1.
pub open spec fn command_index(cs: Seq<Command>, token: Seq<char>) -> int
    decreases cs.len(),
{
    if cs.len() == 0 {
        -1
    } else {
        let r = command_index(cs.drop_last(), token);
        if r >= 0 {
            r
        } else if first_word(cs.last().name@) == token {
            cs.len() - 1
        } else {
            -1
        }
    }
}

/// A placeholder as written: `{name}`.
pub open spec fn brace(name: Seq<char>) -> Seq<char> {
    seq!['{'] + name + seq!['}']
}

/// `resp` with the first `n` placeholders replaced, in order, by the matching values.
pub open spec fn fill(resp: Seq<char>, names: Seq<Seq<char>>, vals: Seq<Seq<char>>, n: nat) -> Seq<
    char,
>
    decreases n,
{
    if n == 0 {
        resp
    } else {
        replace_all(
            fill(resp, names, vals, (n - 1) as nat),
            brace(names[n - 1]),
            vals[n - 1],
        )
    }
}

/// The words of the parameters, none when there are no parameters.
pub open spec fn param_words(p: Option<Seq<char>>) -> Seq<Seq<char>> {
    match p {
        Some(t) => words(t),
        None => Seq::empty(),
    }
}

/// How many placeholders are filled: one per supplied word, at most one per placeholder.
pub open spec fn fill_count(names: Seq<Seq<char>>, vals: Seq<Seq<char>>) -> nat {
    if names.len() <= vals.len() {
        names.len()
    } else {
        vals.len()
    }
}

/// The placeholders of `name` (other than `sender`) in `resp` filled with the words of `params`.
pub open spec fn filled(resp: Seq<char>, name: Seq<char>, params: Option<Seq<char>>) -> Seq<char> {
    let names = named_placeholders(name);
    let vals = param_words(params);
    fill(resp, names, vals, fill_count(names, vals))
}

/// The reply of a definition triggered by `sender` with `params`.
pub open spec fn reply_of(def: Command, params: Option<Seq<char>>, sender: Seq<char>) -> Seq<char> {
    filled(replace_all(def.response@, "{sender}"@, sender), def.name@, params)
}

/// The key a trigger is recorded under: the sender for `user` scope, `global` for `global`
/// scope; any other scope has none.
pub open spec fn scope_key(def: Command, sender: Seq<char>) -> Option<Seq<char>> {
    if def.cooldown_scope@ == "user"@ {
        Some(sender)
    } else if def.cooldown_scope@ == "global"@ {
        Some("global"@)
    } else {
        None
    }
}

/// The value of a decimal numeral: digits, most significant first.
pub open spec fn digits_value(s: Seq<char>) -> int
    decreases s.len(),
{
    if s.len() == 0 {
        0
    } else {
        10 * digits_value(s.drop_last()) + (s.last() as u32 - '0' as u32)
    }
}

/// What `u64`'s `FromStr` accepts: an optional `+`, then one or more ASCII digits whose
/// value fits in 64 bits, and nothing else.
pub open spec fn decimal_u64(s: Seq<char>) -> Option<u64> {
    let d = if s.len() > 0 && s[0] == '+' { s.skip(1) } else { s };
    if d.len() > 0 && (forall|i: int| 0 <= i < d.len() ==> '0' <= #[trigger] d[i] <= '9')
        && digits_value(d) <= u64::MAX {
        Some(digits_value(d) as u64)
    } else {
        None
    }
}

/// Relies on `<u64 as FromStr>::from_str`, documented to take an optional sign followed by
/// decimal digits only, and to fail on overflow (a `-` is no valid sign for an unsigned type).
#[verifier::external_body]
fn parse_u64(s: &str) -> (r: Option<u64>)
    ensures
        r == decimal_u64(s@),
{
    s.parse::<u64>().ok()
}

/// The cooldown of a definition in seconds; text that is no number counts as zero.
pub open spec fn cooldown_of(def: Command) -> u64 {
    match decimal_u64(def.cooldown_in_s@) {
        Some(v) => v,
        None => 0,
    }
}

/// Whether `token` with definition `def` may fire for `sender` at `now` given `table`.
pub open spec fn may_fire(
    table: CooldownTable,
    token: Seq<char>,
    def: Command,
    sender: Seq<char>,
    now: u64,
) -> bool {
    match scope_key(def, sender) {
        Some(k) => cooldown_passed(table.last_trigger(token, k), cooldown_of(def), now),
        None => false,
    }
}

/// The outcome of dispatching bot command `bc` sent by `sender` on `channel` at `now`: the reply
/// line, and the table `after` that follows `before`.
pub open spec fn dispatched(
    commands: Seq<Command>,
    bc: (Seq<char>, Option<Seq<char>>),
    sender: Seq<char>,
    channel: Seq<char>,
    now: u64,
    before: CooldownTable,
    after: CooldownTable,
    reply: Option<Seq<char>>,
) -> bool {
    let i = command_index(commands, bc.0);
    if i < 0 {
        reply is None && after == before
    } else {
        let def = commands[i];
        if may_fire(before, bc.0, def, sender, now) {
            &&& reply == Some(privmsg_line(channel, reply_of(def, bc.1, sender)))
            &&& CooldownTable::records(before, after, bc.0, scope_key(def, sender).unwrap(), now)
        } else {
            reply is None && after == before
        }
    }
}

impl BotCommand {
    /// Dispatches this bot command sent by `display_name` on `channel` at `now` (Unix
    /// seconds): finds its definition, applies the cooldown, and builds the reply. An unknown
    /// token, a cooldown still running or an unknown scope give no reply and leave the table
    /// as it was.
    pub fn parse(
        &self,
        display_name: &str,
        channel: &str,
        commands: &Commands,
        last_triggers: &mut CooldownTable,
        now: u64,
    ) -> (r: Option<PrivateMessageResponse>)
        ensures
            ({
                let i = command_index(commands@, self.command@);
                &&& i < 0 ==> r is None && *final(last_triggers) == *old(last_triggers)
                &&& i >= 0 ==> {
                    let def = commands@[i];
                    &&& r is Some <==> may_fire(
                        *old(last_triggers),
                        self.command@,
                        def,
                        display_name@,
                        now,
                    )
                    &&& r matches Some(m) ==> m@ == (
                        channel@,
                        reply_of(def, self@.1, display_name@),
                    ) && CooldownTable::records(
                        *old(last_triggers),
                        *final(last_triggers),
                        self.command@,
                        scope_key(def, display_name@).unwrap(),
                        now,
                    )
                    &&& r is None ==> *final(last_triggers) == *old(last_triggers)
                }
            }),
    {
        let command = match self.find_command(commands) {
            Some(c) => c,
            None => {
                return None;
            },
        };
        let response_message = self.replace_sender(command.response.as_str(), display_name);
        if !self.check_cooldown(command, display_name, last_triggers, now) {
            return None;
        }
        let response_message = self.replace_placeholders(
            response_message.as_str(),
            command.name.as_str(),
            &self.command_params,
        );
        Some(PrivateMessageResponse::from(channel, response_message.as_str()))
    }

    /// The first definition whose name starts with this token.
    pub fn find_command<'a>(&self, commands: &'a Commands) -> (r: Option<&'a Command>)
        ensures
            command_index(commands@, self.command@) < 0 <==> r is None,
            r matches Some(c) ==> *c == commands@[command_index(commands@, self.command@)],
            command_index(commands@, self.command@) < commands@.len(),
    {
        let cs = commands.get();
        let token = chars_of(self.command.as_str());
        let mut found: Option<usize> = None;
        let mut i: usize = 0;
        while i < cs.len()
            invariant
                i <= cs@.len(),
                cs@ == commands@,
                token@ == self.command@,
                command_index(cs@.take(i as int), token@) < 0 <==> found is None,
                found matches Some(j) ==> j == command_index(cs@.take(i as int), token@) && j < i,
                command_index(cs@.take(i as int), token@) < i,
            decreases cs@.len() - i,
        {
            assert(cs@.take(i + 1).drop_last() =~= cs@.take(i as int));
            if found.is_none() {
                let w = split_words(&chars_of(cs[i].name.as_str()));
                let first = if w.len() > 0 {
                    assert(w@[0]@ == views(w@)[0]);
                    text_of(w[0].as_slice())
                } else {
                    String::new()
                };
                if first == self.command {
                    found = Some(i);
                }
            }
            i += 1;
        }
        assert(cs@.take(i as int) =~= cs@);
        match found {
            Some(j) => Some(&cs[j]),
            None => None,
        }
    }

    /// `response` with every `{sender}` replaced by `display_name`.
    pub fn replace_sender(&self, response: &str, display_name: &str) -> (r: String)
        ensures
            r@ == replace_all(response@, "{sender}"@, display_name@),
    {
        let pat = chars_of("{sender}");
        proof {
            reveal_strlit("{sender}");
        }
        let out = replace_chars(&chars_of(response), &pat, &chars_of(display_name));
        text_of(out.as_slice())
    }

    /// Applies `command`'s cooldown for `display_name` at `now`: true, with the trigger
    /// recorded, when it may fire; false, with the table unchanged, otherwise.
    pub fn check_cooldown(
        &self,
        command: &Command,
        display_name: &str,
        last_triggers: &mut CooldownTable,
        now: u64,
    ) -> (r: bool)
        ensures
            r == may_fire(*old(last_triggers), self.command@, *command, display_name@, now),
            r ==> CooldownTable::records(
                *old(last_triggers),
                *final(last_triggers),
                self.command@,
                scope_key(*command, display_name@).unwrap(),
                now,
            ),
            !r ==> *final(last_triggers) == *old(last_triggers),
    {
        let cooldown = match parse_u64(command.cooldown_in_s.as_str()) {
            Some(v) => v,
            None => 0,
        };
        let scope = chars_of(command.cooldown_scope.as_str());
        if same_text(&scope, "user") {
            last_triggers.try_trigger(self.command.as_str(), display_name, cooldown, now)
        } else if same_text(&scope, "global") {
            last_triggers.try_trigger(self.command.as_str(), "global", cooldown, now)
        } else {
            false
        }
    }

    /// `response` with the placeholders of `command_name` (other than `sender`) replaced, in
    /// order, by the words of `params`; placeholders without a word stay as written.
    pub fn replace_placeholders(
        &self,
        response: &str,
        command_name: &str,
        params: &Option<String>,
    ) -> (r: String)
        ensures
            r@ == filled(response@, command_name@, opt_view(*params)),
    {
        let names = placeholders_without_sender(command_name);
        let parts: Vec<Vec<char>> = match params {
            Some(p) => split_words(&chars_of(p.as_str())),
            None => Vec::new(),
        };
        let ghost ns = texts(names@);
        let ghost vs = views(parts@);
        assert(vs =~= param_words(opt_view(*params)));
        let n: usize = if names.len() <= parts.len() {
            names.len()
        } else {
            parts.len()
        };
        let mut out = chars_of(response);
        let mut i: usize = 0;
        while i < n
            invariant
                i <= n,
                n == fill_count(ns, vs),
                ns == texts(names@),
                vs == views(parts@),
                n <= names@.len(),
                n <= parts@.len(),
                out@ == fill(response@, ns, vs, i as nat),
            decreases n - i,
        {
            let mut pat: Vec<char> = Vec::new();
            pat.push('{');
            let name = chars_of(names[i].as_str());
            crate::text::push_all(&mut pat, &name);
            pat.push('}');
            assert(ns[i as int] == names@[i as int]@);
            assert(vs[i as int] == parts@[i as int]@);
            assert(pat@ =~= brace(ns[i as int]));
            out = replace_chars(&out, &pat, &parts[i]);
            i += 1;
        }
        text_of(out.as_slice())
    }
}

/// A command that fired at `now1` does not fire again for the same sender within its cooldown
/// window, and that refusal leaves the table as it was; once the window has elapsed it fires
/// again.
pub proof fn lemma_cooldown_window(
    commands: Seq<Command>,
    bc: (Seq<char>, Option<Seq<char>>),
    sender: Seq<char>,
    channel: Seq<char>,
    now1: u64,
    now2: u64,
    now3: u64,
    t0: CooldownTable,
    t1: CooldownTable,
    t2: CooldownTable,
    t3: CooldownTable,
    r1: Option<Seq<char>>,
    r2: Option<Seq<char>>,
    r3: Option<Seq<char>>,
)
    requires
        dispatched(commands, bc, sender, channel, now1, t0, t1, r1),
        dispatched(commands, bc, sender, channel, now2, t1, t2, r2),
        dispatched(commands, bc, sender, channel, now3, t2, t3, r3),
        r1 is Some,
        now1 <= now2 < now1 + cooldown_of(commands[command_index(commands, bc.0)]),
        now3 >= now1 + cooldown_of(commands[command_index(commands, bc.0)]),
    ensures
        r2 is None,
        t2 == t1,
        r3 is Some,
{
    let def = commands[command_index(commands, bc.0)];
    let k = scope_key(def, sender).unwrap();
    assert(t1.last_trigger(bc.0, k) == Some(now1));
}

/// Under `global` scope a trigger blocks every sender, the same one or another, within the
/// cooldown window.
pub proof fn lemma_global_scope_blocks_all(
    commands: Seq<Command>,
    bc: (Seq<char>, Option<Seq<char>>),
    sender1: Seq<char>,
    sender2: Seq<char>,
    channel1: Seq<char>,
    channel2: Seq<char>,
    now1: u64,
    now2: u64,
    t0: CooldownTable,
    t1: CooldownTable,
    t2: CooldownTable,
    r1: Option<Seq<char>>,
    r2: Option<Seq<char>>,
)
    requires
        command_index(commands, bc.0) >= 0,
        commands[command_index(commands, bc.0)].cooldown_scope@ == "global"@,
        dispatched(commands, bc, sender1, channel1, now1, t0, t1, r1),
        dispatched(commands, bc, sender2, channel2, now2, t1, t2, r2),
        r1 is Some,
        now1 <= now2 < now1 + cooldown_of(commands[command_index(commands, bc.0)]),
    ensures
        r2 is None,
        t2 == t1,
{
    reveal_strlit("global");
    reveal_strlit("user");
    let def = commands[command_index(commands, bc.0)];
    assert("global"@ != "user"@) by {
        assert("global"@.len() != "user"@.len());
    }
    assert(scope_key(def, sender1) == Some("global"@));
    assert(scope_key(def, sender2) == Some("global"@));
    assert(may_fire(t0, bc.0, def, sender1, now1));
    assert(t1.last_trigger(bc.0, "global"@) == Some(now1));
}

/// Under `user` scope a trigger by one sender has no bearing on another sender: whether the
/// other's trigger fires is decided as if the first had not happened.
pub proof fn lemma_user_scope_per_sender(
    commands: Seq<Command>,
    bc: (Seq<char>, Option<Seq<char>>),
    sender1: Seq<char>,
    sender2: Seq<char>,
    channel1: Seq<char>,
    channel2: Seq<char>,
    now1: u64,
    now2: u64,
    t0: CooldownTable,
    t1: CooldownTable,
    t2: CooldownTable,
    r1: Option<Seq<char>>,
    r2: Option<Seq<char>>,
)
    requires
        command_index(commands, bc.0) >= 0,
        commands[command_index(commands, bc.0)].cooldown_scope@ == "user"@,
        sender1 != sender2,
        dispatched(commands, bc, sender1, channel1, now1, t0, t1, r1),
        dispatched(commands, bc, sender2, channel2, now2, t1, t2, r2),
    ensures
        r2 is Some <==> may_fire(t0, bc.0, commands[command_index(commands, bc.0)], sender2, now2),
{
    assert(t1.last_trigger(bc.0, sender2) == t0.last_trigger(bc.0, sender2));
}

} // verus!
