pub mod chance;
pub mod dispatch;
pub mod message;
pub mod pattern;
pub mod ranking;
pub mod text;

use vstd::prelude::*;
use crate::arabot::message::{
    keys_distinct, key_index, lemma_key_index, lemma_put, put,
    ChatCommand, ChatMessage, Elevation, Reply,
};
use crate::arabot::pattern::{compile_pattern, pattern_find, regex_compiles, regex_find,
    regex_is_match, Pattern};
use crate::arabot::text::{contains, contains_str};

verus! {

/// The commands of a bot, each under its key: the command symbol followed by the command's
/// name. Keys are distinct; the entries keep the order in which keys were first added.
pub struct CommandHash<R> {
    pub commands: Vec<(String, ChatCommand<R>)>,
}

/// The entries of a command table, keyed by the view of their keys.
pub open spec fn table_of<R>(commands: Seq<(String, ChatCommand<R>)>) -> Seq<(Seq<char>, ChatCommand<R>)> {
    commands.map_values(|e: (String, ChatCommand<R>)| (e.0@, e.1))
}

impl<R> CommandHash<R> {
    pub open spec fn table(&self) -> Seq<(Seq<char>, ChatCommand<R>)> {
        table_of(self.commands@)
    }

    /// Keys are distinct.
    pub open spec fn wf(&self) -> bool {
        keys_distinct(self.table())
    }

    /// Whether keys are distinct.
    pub fn is_consistent(&self) -> (r: bool)
        ensures
            r == self.wf(),
    {
        let n = self.commands.len();
        let mut i: usize = 0;
        while i < n
            invariant
                i <= n == self.commands@.len(),
                forall|a: int, b: int|
                    0 <= a < i && 0 <= b < n && a != b ==> self.table()[a].0 != self.table()[b].0,
            decreases n - i,
        {
            let mut j: usize = 0;
            while j < n
                invariant
                    i < n == self.commands@.len(),
                    j <= n,
                    forall|b: int| 0 <= b < j && b != i ==> self.table()[i as int].0 != self.table()[b].0,
                decreases n - j,
            {
                if j != i && self.commands[i].0 == self.commands[j].0 {
                    assert(self.table()[i as int].0 == self.table()[j as int].0);
                    return false;
                }
                j = j + 1;
            }
            i = i + 1;
        }
        true
    }

    pub fn new() -> (r: CommandHash<R>)
        ensures
            r.table() == Seq::<(Seq<char>, ChatCommand<R>)>::empty(),
            r.wf(),
    {
        let r = CommandHash { commands: Vec::new() };
        assert(r.table() == Seq::<(Seq<char>, ChatCommand<R>)>::empty());
        r
    }

    /// Adds `new_command` under the key `command_symbol` + its name, replacing the command that
    /// had that key.
    pub fn add_command(&mut self, new_command: ChatCommand<R>, command_symbol: String)
        requires
            old(self).wf(),
        ensures
            final(self).wf(),
            final(self).table() == put(
                old(self).table(),
                command_symbol@ + new_command.command@,
                new_command,
            ),
    {
        let key = command_symbol.concat(new_command.command.as_str());
        let ghost k = key@;
        let ghost old_table = self.table();
        proof {
            lemma_key_index(old_table, k);
            lemma_put(old_table, k, new_command, k);
        }
        match self.lookup(&key) {
            Some(i) => {
                self.commands.set(i, (key, new_command));
                assert(self.table() == old_table.update(i as int, (k, new_command)));
            },
            None => {
                self.commands.push((key, new_command));
                assert(self.table() == old_table.push((k, new_command)));
            },
        }
    }

    /// The position of the command under `key`, if there is one.
    pub fn lookup(&self, key: &String) -> (r: Option<usize>)
        ensures
            match r {
                Some(i) => i == key_index(self.table(), key@) && i < self.table().len(),
                None => key_index(self.table(), key@) == -1,
            },
    {
        proof {
            lemma_key_index(self.table(), key@);
        }
        let n = self.commands.len();
        let mut i: usize = n;
        while i > 0
            invariant
                i <= n == self.commands@.len(),
                key_index(self.table(), key@) < i,
                -1 <= key_index(self.table(), key@) < self.table().len(),
                key_index(self.table(), key@) >= 0 ==> self.table()[key_index(self.table(), key@)].0 == key@,
                key_index(self.table(), key@) == -1 <==> forall|j: int| 0 <= j < self.table().len() ==> self.table()[j].0 != key@,
            decreases i,
        {
            if self.commands[i - 1].0 == *key {
                proof {
                    lemma_key_index_last_match(self.table(), key@, i - 1);
                }
                return Some(i - 1);
            }
            proof {
                lemma_key_index_skip(self.table(), key@, i - 1);
            }
            i = i - 1;
        }
        None
    }
}

/// Where the entry at `i` has key `k` and no later entry has it, `i` is the index found for `k`.
proof fn lemma_key_index_last_match<V>(s: Seq<(Seq<char>, V)>, k: Seq<char>, i: int)
    requires
        0 <= i < s.len(),
        s[i].0 == k,
        key_index(s, k) <= i,
    ensures
        key_index(s, k) == i,
{
    lemma_key_index(s, k);
    lemma_key_index_below(s, k, i);
}

/// The index found for `k` is the last entry with key `k`.
proof fn lemma_key_index_below<V>(s: Seq<(Seq<char>, V)>, k: Seq<char>, i: int)
    requires
        0 <= i < s.len(),
        s[i].0 == k,
    ensures
        key_index(s, k) >= i,
    decreases s.len(),
{
    if s.last().0 != k {
        lemma_key_index_below(s.drop_last(), k, i);
    }
}

/// Where the entry at `i` does not have key `k`, the index found for `k` is not `i`.
proof fn lemma_key_index_skip<V>(s: Seq<(Seq<char>, V)>, k: Seq<char>, i: int)
    requires
        0 <= i < s.len(),
        s[i].0 != k,
        key_index(s, k) <= i,
    ensures
        key_index(s, k) < i,
{
    lemma_key_index(s, k);
}

/// A Twitch chat bot: its name, its OAuth token, the channel it joins (with `#` in front),
/// the messages and replies waiting, the symbol that starts a command, and the pause in
/// milliseconds after each message it sends.
pub struct Arabot {
    pub name: String,
    oauth: String,
    pub twitch_channel: String,
    pub incoming_queue: Vec<ChatMessage>,
    pub answer_queue: Vec<Reply>,
    pub command_symbol: String,
    message_wait: u64,
}

/// What a bot holds, as values.
pub struct ArabotView {
    pub name: Seq<char>,
    pub oauth: Seq<char>,
    pub twitch_channel: Seq<char>,
    pub incoming_queue: Seq<ChatMessage>,
    pub answer_queue: Seq<Reply>,
    pub command_symbol: Seq<char>,
    pub message_wait: u64,
}

impl View for Arabot {
    type V = ArabotView;

    closed spec fn view(&self) -> ArabotView {
        ArabotView {
            name: self.name@,
            oauth: self.oauth@,
            twitch_channel: self.twitch_channel@,
            incoming_queue: self.incoming_queue@,
            answer_queue: self.answer_queue@,
            command_symbol: self.command_symbol@,
            message_wait: self.message_wait,
        }
    }
}

impl Arabot {
    /// A bot for `twitch_channel`, whose channel name gets a `#` in front.
    pub fn new(
        name: String,
        oauth: String,
        twitch_channel: String,
        command_symbol: String,
        message_wait: u64,
    ) -> (bot: Arabot)
        ensures
            bot@ == (ArabotView {
                name: name@,
                oauth: oauth@,
                twitch_channel: "#"@ + twitch_channel@,
                incoming_queue: Seq::empty(),
                answer_queue: Seq::empty(),
                command_symbol: command_symbol@,
                message_wait,
            }),
    {
        let mut hash = String::from_str("#");
        hash.append(twitch_channel.as_str());
        let bot = Arabot {
            name,
            oauth,
            twitch_channel: hash,
            incoming_queue: Vec::new(),
            answer_queue: Vec::new(),
            command_symbol,
            message_wait,
        };
        assert(bot@.incoming_queue == Seq::<ChatMessage>::empty());
        assert(bot@.answer_queue == Seq::<Reply>::empty());
        bot
    }

    /// The OAuth token the bot logs in with.
    pub fn oauth(&self) -> (r: &String)
        ensures
            r@ == self@.oauth,
    {
        &self.oauth
    }

    /// The pause in milliseconds after each message the bot sends.
    pub fn message_wait(&self) -> (r: u64)
        ensures
            r == self@.message_wait,
    {
        self.message_wait
    }

    /// The text of the regular expression that recognizes commands: one alternative for each
    /// command in `commands` and one for `hello`, each anchored at the start.
    pub fn command_pattern<R>(commands: &CommandHash<R>, command_symbol: &String) -> (r: String)
        ensures
            r@ == command_pattern_spec(commands.table(), command_symbol@),
    {
        let mut command_reg = String::from_str("^");
        let n = commands.commands.len();
        let mut i: usize = 0;
        while i < n
            invariant
                i <= n == commands.commands@.len(),
                command_reg@ == "^"@ + alternatives(
                    commands.table().subrange(0, i as int),
                    command_symbol@,
                ),
            decreases n - i,
        {
            command_reg.append("^");
            command_reg.append(command_symbol.as_str());
            command_reg.append(commands.commands[i].1.command.as_str());
            command_reg.append(r"\b|");
            assert(commands.table().subrange(0, i + 1).drop_last() == commands.table().subrange(
                0,
                i as int,
            ));
            i = i + 1;
        }
        assert(commands.table().subrange(0, n as int) == commands.table());
        command_reg.append("^");
        command_reg.append(command_symbol.as_str());
        command_reg.append(r"hello\b");
        command_reg.append(r"{1}");
        command_reg
    }

    /// Compiles the command regular expression; `None` where it does not compile (a command
    /// name or the symbol holding characters that break the pattern).
    pub fn generate_regex<R>(commands: &CommandHash<R>, command_symbol: &String) -> (r: Option<
        Pattern,
    >)
        ensures
            r is Some <==> regex_compiles(command_pattern_spec(commands.table(), command_symbol@)),
            r matches Some(p) ==> p.source() == command_pattern_spec(
                commands.table(),
                command_symbol@,
            ),
    {
        let text = Self::command_pattern(commands, command_symbol);
        match compile_pattern(text.as_str()) {
            Ok(p) => Some(p),
            Err(_) => None,
        }
    }
}

/// One alternative for each command: `^`, the symbol, the command's name, `\b|`.
pub open spec fn alternatives<R>(t: Seq<(Seq<char>, ChatCommand<R>)>, symbol: Seq<char>) -> Seq<
    char,
>
    decreases t.len(),
{
    if t.len() == 0 {
        Seq::empty()
    } else {
        alternatives(t.drop_last(), symbol) + "^"@ + symbol + t.last().1.command@ + r"\b|"@
    }
}

/// The command regular expression for the table `t` and the command symbol `symbol`.
pub open spec fn command_pattern_spec<R>(t: Seq<(Seq<char>, ChatCommand<R>)>, symbol: Seq<char>) -> Seq<
    char,
> {
    "^"@ + alternatives(t, symbol) + "^"@ + symbol + r"hello\b"@ + r"{1}"@
}

/// The pattern that finds the badges tag of a raw chat line.
pub open spec fn badge_pattern() -> Seq<char> {
    r"badges=[a-zA-Z0-9/,_-]*;"@
}

/// The elevation that a badges tag grants.
pub open spec fn elevation_of(badges: Seq<char>) -> Elevation {
    if contains(badges, "broadcaster"@) {
        Elevation::Broadcaster
    } else if contains(badges, "moderator"@) {
        Elevation::Moderator
    } else {
        Elevation::Viewer
    }
}

/// Turns raw chat lines into chat messages.
pub struct ChatReader {
    pub badge_regex: Pattern,
}

impl ChatReader {
    pub open spec fn wf(&self) -> bool {
        self.badge_regex.source() == badge_pattern()
    }

    /// `None` where the badge pattern does not compile.
    pub fn new() -> (r: Option<ChatReader>)
        ensures
            r is Some <==> regex_compiles(badge_pattern()),
            r matches Some(c) ==> c.wf(),
    {
        match compile_pattern(r"badges=[a-zA-Z0-9/,_-]*;") {
            Ok(badge_regex) => Some(ChatReader { badge_regex }),
            Err(_) => None,
        }
    }

    /// The chat message that the line `raw` (with its tags) carries: the sender's nickname (or
    /// "No username found"), the elevation its badges grant, its text and its channel.
    /// `None` where the line has no badges tag.
    pub fn read(&self, raw: &str, nickname: Option<String>, text: String, channel: String) -> (r:
        Option<ChatMessage>)
        requires
            self.wf(),
        ensures
            r is None <==> !regex_is_match(badge_pattern(), raw@),
            r matches Some(m) ==> {
                &&& m.roles == elevation_of(regex_find(badge_pattern(), raw@))
                &&& m.user@ == match nickname {
                    Some(n) => n@,
                    None => "No username found"@,
                }
                &&& m.text@ == text@
                &&& m.channel@ == channel@
            },
    {
        let badges = match pattern_find(&self.badge_regex, raw) {
            Some(b) => b,
            None => {
                return None;
            },
        };
        let roles = if contains_str(badges.as_str(), "broadcaster") {
            Elevation::Broadcaster
        } else if contains_str(badges.as_str(), "moderator") {
            Elevation::Moderator
        } else {
            Elevation::Viewer
        };
        let user = match nickname {
            Some(n) => n,
            None => String::from_str("No username found"),
        };
        Some(ChatMessage { user, roles, text, channel })
    }
}

} // verus!
