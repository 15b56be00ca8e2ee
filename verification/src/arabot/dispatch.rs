use vstd::prelude::*;
use crate::arabot::chance::choose_one;
use crate::arabot::message::{
    file_pattern, help_pattern, lemma_key_index, new_vote_view, put, sheet_line_spec,
    time_pattern, value_of, ChatCommand, ChatMessage, Elevation, VoteObj, VoteRegex, VoteView,
};
use crate::arabot::pattern::{
    pattern_find, pattern_group1, pattern_is_match, regex_compiles, regex_find, regex_group1,
    regex_is_match, Pattern,
};
use crate::arabot::ranking::{rank_votes, ranking, Scored};
use crate::arabot::text::{
    chars_of, contains, contains_str, read_time, decimal, push_decimal, string_of,
    time_value, trim, trimmed,
};
use crate::arabot::{command_pattern_spec, Arabot, CommandHash};

verus! {

/// What the bot is to do after reading a command.
pub enum BotAction {
    /// Send `text` to `channel`.
    Say { text: String, channel: String },
    /// Send `text` to `channel` every `interval` seconds, from now on.
    Repeat { text: String, channel: String, interval: i64 },
    /// Make `session` the current voting session (creating its sheet with the header line
    /// where it keeps one), remind `reminder_channel` of it with `reminder` every `interval`
    /// seconds while it runs, and run it, announcing its start and end in `channel`.
    StartSession {
        session: VoteObj,
        reminder: String,
        interval: i64,
        reminder_channel: String,
        channel: String,
    },
    /// Run the current session again, announcing its end in `channel`.
    ResumeSession { channel: String },
    /// Cut the waits of the current session short until it stops.
    EndSession,
    /// Append `line` to the sheet file `path`.
    AppendSheet { path: String, line: String },
    /// Send to `channel` what the response of the command under `key` answers to `user`
    /// and `text`.
    RunResponse { key: String, user: String, text: String, channel: String },
}

/// A bot action, as values.
pub enum ActionView {
    Say { text: Seq<char>, channel: Seq<char> },
    Repeat { text: Seq<char>, channel: Seq<char>, interval: i64 },
    StartSession {
        session: VoteView,
        reminder: Seq<char>,
        interval: i64,
        reminder_channel: Seq<char>,
        channel: Seq<char>,
    },
    ResumeSession { channel: Seq<char> },
    EndSession,
    AppendSheet { path: Seq<char>, line: Seq<char> },
    RunResponse { key: Seq<char>, user: Seq<char>, text: Seq<char>, channel: Seq<char> },
}

impl View for BotAction {
    type V = ActionView;

    open spec fn view(&self) -> ActionView {
        match self {
            BotAction::Say { text, channel } => ActionView::Say { text: text@, channel: channel@ },
            BotAction::Repeat { text, channel, interval } => ActionView::Repeat {
                text: text@,
                channel: channel@,
                interval: *interval,
            },
            BotAction::StartSession { session, reminder, interval, reminder_channel, channel } =>
            ActionView::StartSession {
                session: session@,
                reminder: reminder@,
                interval: *interval,
                reminder_channel: reminder_channel@,
                channel: channel@,
            },
            BotAction::ResumeSession { channel } => ActionView::ResumeSession {
                channel: channel@,
            },
            BotAction::EndSession => ActionView::EndSession,
            BotAction::AppendSheet { path, line } => ActionView::AppendSheet {
                path: path@,
                line: line@,
            },
            BotAction::RunResponse { key, user, text, channel } => ActionView::RunResponse {
                key: key@,
                user: user@,
                text: text@,
                channel: channel@,
            },
        }
    }
}

pub open spec fn actions_view(v: Seq<BotAction>) -> Seq<ActionView> {
    v.map_values(|a: BotAction| a@)
}

/// Why a command could not be carried out.
#[derive(Copy, Clone, Debug, PartialEq, Eq, Structural)]
pub enum CommandFailure {
    /// The recognized command does not start with a one-byte character.
    MalformedCommand,
    /// The recognized command has no entry in the command table.
    UnknownCommand,
    /// A time in the message cannot be read as seconds.
    UnreadableTime,
    /// A name the command needs is missing from the message.
    MissingCapture,
    /// There are no emotes to roll.
    NoEmotes,
    /// A recorded vote cannot be read, or lies below the result.
    UnrankableVotes,
}

/// Why a command processor could not be set up.
#[derive(Copy, Clone, Debug, PartialEq, Eq, Structural)]
pub enum SetupFailure {
    /// The regular expression built from the command table does not compile.
    CommandPattern,
    /// One of the vote regular expressions does not compile.
    VotePatterns,
}

pub type Outcome = Result<(VoteView, Seq<ActionView>), CommandFailure>;

pub open spec fn say(text: Seq<char>, channel: Seq<char>) -> ActionView {
    ActionView::Say { text, channel }
}

/// `s` without its first character, where that character takes one byte in UTF-8 (what
/// slicing a `str` at byte 1 gives; other strings cannot be sliced there).
pub open spec fn after_first_byte(s: Seq<char>) -> Option<Seq<char>> {
    if s.len() > 0 && (s[0] as u32) < 128 {
        Some(s.drop_first())
    } else {
        None
    }
}

/// Where `r` and the final session agree with the expected outcome `o`: on success the
/// actions and the session are those of `o`; on failure the session is unchanged.
pub open spec fn meets(
    r: Result<Vec<BotAction>, CommandFailure>,
    old_votes: VoteView,
    new_votes: VoteView,
    o: Outcome,
) -> bool {
    match o {
        Ok((v, acts)) => r matches Ok(a) && actions_view(a@) == acts && new_votes == v,
        Err(e) => r == Err::<Vec<BotAction>, CommandFailure>(e) && new_votes == old_votes,
    }
}

/// The three command lists of the help text (normal, moderator, broadcaster), each name
/// followed by ", "; `None` where a key cannot lose its symbol.
pub open spec fn help_lists<R>(t: Seq<(Seq<char>, ChatCommand<R>)>) -> Option<
    (Seq<char>, Seq<char>, Seq<char>),
>
    decreases t.len(),
{
    if t.len() == 0 {
        Some((Seq::empty(), Seq::empty(), Seq::empty()))
    } else {
        match (help_lists(t.drop_last()), after_first_byte(t.last().0)) {
            (Some((v, m, b)), Some(name)) => match t.last().1.elevation {
                Elevation::Viewer => Some((v + name + ", "@, m, b)),
                Elevation::Moderator => Some((v, m + name + ", "@, b)),
                Elevation::Broadcaster => Some((v, m, b + name + ", "@)),
            },
            _ => None,
        }
    }
}

/// The text that lists every command by who may use it.
pub open spec fn help_text(lists: (Seq<char>, Seq<char>, Seq<char>)) -> Seq<char> {
    "Normal commands: "@ + lists.0 + " "@ + "Moderator only commands: "@ + lists.1 + " "@
        + "Broadcaster only commands: "@ + lists.2 + " "@
}

/// What a slot roll shows.
pub open spec fn slots_text(e1: Seq<char>, e2: Seq<char>, e3: Seq<char>, user: Seq<char>) -> Seq<
    char,
> {
    if e1 == e2 && e2 == e3 {
        e1 + " "@ + e2 + " "@ + e3 + " JACKPOT @"@ + user
    } else {
        e1 + " "@ + e2 + " "@ + e3 + " @"@ + user
    }
}

/// The listing lines of the ranking: `k) user time` for the first `count` places.
pub open spec fn ranking_lines(rk: Seq<Scored>, count: int, channel: Seq<char>) -> Seq<ActionView> {
    Seq::new(
        count as nat,
        |i: int| say(decimal((i + 1) as nat) + ") "@ + rk[i].2 + " "@ + rk[i].1, channel),
    )
}

/// The repeating messages of the commands: one for each command with a positive interval
/// whose name does not contain `svote`, in table order.
pub open spec fn repeat_actions<R>(t: Seq<(Seq<char>, ChatCommand<R>)>, channel: Seq<char>) -> Seq<
    ActionView,
>
    decreases t.len(),
{
    if t.len() == 0 {
        Seq::empty()
    } else {
        let c = t.last().1;
        let rest = repeat_actions(t.drop_last(), channel);
        if c.repeat_interval > 0 && !contains(c.command@, "svote"@) {
            rest.push(
                ActionView::Repeat {
                    text: c.response_message@,
                    channel,
                    interval: c.repeat_interval,
                },
            )
        } else {
            rest
        }
    }
}

/// What the bot does with chat commands: its command table, the regular expressions that read
/// them, the command symbol, the channel that repeating messages go to, the emotes of the
/// slot machine, how many places the ranking lists, what the winner is told, and the folder
/// that sheets are kept in.
pub struct CommandProcessor<R> {
    pub commands: CommandHash<R>,
    pub command_regex: Pattern,
    pub regexes: VoteRegex,
    pub command_symbol: String,
    pub channel: String,
    pub emote_list: Vec<String>,
    pub num_winners: usize,
    pub winner_message: String,
    pub perfect_guess_message: String,
    pub location_path: String,
}

impl<R> CommandProcessor<R> {
    /// The command table has distinct keys, and the regular expressions are those of the
    /// table and of the vote commands.
    pub open spec fn wf(&self) -> bool {
        &&& self.commands.wf()
        &&& self.regexes.wf()
        &&& self.command_regex.source() == self.command_pattern()
    }

    /// The command regular expression of the table and symbol.
    pub open spec fn command_pattern(&self) -> Seq<char> {
        command_pattern_spec(self.commands.table(), self.command_symbol@)
    }

    /// The command that `text` (trimmed) starts with, if the command expression matches it.
    pub open spec fn command_in(&self, text: Seq<char>) -> Option<Seq<char>> {
        if regex_is_match(self.command_pattern(), trim(text)) {
            Some(regex_find(self.command_pattern(), trim(text)))
        } else {
            None
        }
    }

    /// The command table entry under `key`.
    pub open spec fn entry(&self, key: Seq<char>) -> Option<ChatCommand<R>> {
        value_of(self.commands.table(), key)
    }

    /// Whether the command table has distinct keys and the regular expressions are those of
    /// the table and of the vote commands.
    pub fn is_consistent(&self) -> (r: bool)
        ensures
            r == self.wf(),
    {
        self.commands.is_consistent() && self.regexes.is_consistent()
            && *self.command_regex.source_text() == Arabot::command_pattern(
            &self.commands,
            &self.command_symbol,
        )
    }

    /// Sets up a processor; fails where a regular expression does not compile.
    pub fn new(
        commands: CommandHash<R>,
        command_symbol: String,
        channel: String,
        emote_list: Vec<String>,
        num_winners: usize,
        winner_message: String,
        perfect_guess_message: String,
        location_path: String,
    ) -> (r: Result<CommandProcessor<R>, SetupFailure>)
        requires
            commands.wf(),
        ensures
            r matches Ok(p) ==> {
                &&& p.wf()
                &&& p.commands.table() == commands.table()
                &&& p.command_symbol@ == command_symbol@
                &&& p.channel@ == channel@
                &&& p.emote_list@ == emote_list@
                &&& p.num_winners == num_winners
                &&& p.winner_message@ == winner_message@
                &&& p.perfect_guess_message@ == perfect_guess_message@
                &&& p.location_path@ == location_path@
            },
            r == Err::<CommandProcessor<R>, SetupFailure>(SetupFailure::CommandPattern) <==> !regex_compiles(
                command_pattern_spec(commands.table(), command_symbol@),
            ),
            r == Err::<CommandProcessor<R>, SetupFailure>(SetupFailure::VotePatterns) <==> regex_compiles(
                command_pattern_spec(commands.table(), command_symbol@),
            ) && !crate::arabot::message::regex_compiles_all(),
    {
        let command_regex = match Arabot::generate_regex(&commands, &command_symbol) {
            Some(p) => p,
            None => {
                return Err(SetupFailure::CommandPattern);
            },
        };
        let regexes = match VoteRegex::new() {
            Some(v) => v,
            None => {
                return Err(SetupFailure::VotePatterns);
            },
        };
        Ok(
            CommandProcessor {
                commands,
                command_regex,
                regexes,
                command_symbol,
                channel,
                emote_list,
                num_winners,
                winner_message,
                perfect_guess_message,
                location_path,
            },
        )
    }

    /// The messages that repeat from the start: see `repeat_actions`.
    pub fn repeaters(&self) -> (r: Vec<BotAction>)
        ensures
            actions_view(r@) == repeat_actions(self.commands.table(), self.channel@),
    {
        let mut r: Vec<BotAction> = Vec::new();
        let n = self.commands.commands.len();
        let mut i: usize = 0;
        while i < n
            invariant
                i <= n == self.commands.commands@.len(),
                actions_view(r@) == repeat_actions(
                    self.commands.table().subrange(0, i as int),
                    self.channel@,
                ),
            decreases n - i,
        {
            let c = &self.commands.commands[i].1;
            let ghost sub = self.commands.table().subrange(0, i + 1);
            assert(sub.drop_last() == self.commands.table().subrange(0, i as int));
            assert(sub.last().1 == *c);
            if c.repeat_interval > 0 && !contains_str(c.command.as_str(), "svote") {
                let ghost before = r@;
                r.push(
                    BotAction::Repeat {
                        text: c.response_message.clone(),
                        channel: self.channel.clone(),
                        interval: c.repeat_interval,
                    },
                );
                assert(actions_view(r@) == actions_view(before).push(r@.last()@));
            }
            i = i + 1;
        }
        assert(self.commands.table().subrange(0, n as int) == self.commands.table());
        r
    }

    /// What the bot does with a message from `user` saying `text` in `channel`, while the
    /// current session is `votes`, for every command but `slots` (whose outcome rests on
    /// chance). Messages that do not start with a known command are ignored.
    pub open spec fn outcome(
        &self,
        votes: VoteView,
        user: Seq<char>,
        text: Seq<char>,
        channel: Seq<char>,
    ) -> Outcome {
        match self.command_in(text) {
            None => Ok((votes, Seq::empty())),
            Some(command) => match after_first_byte(command) {
                None => Err(CommandFailure::MalformedCommand),
                Some(name) => if name == "hello"@ {
                    Ok((votes, seq![say("Hello, "@ + user, channel)]))
                } else if name == "svote"@ {
                    self.svote_outcome(votes, command, text, channel)
                } else if name == "evote"@ {
                    if votes.has_started {
                        Ok((votes, seq![ActionView::EndSession]))
                    } else {
                        Ok((votes, Seq::empty()))
                    }
                } else if name == "extend"@ {
                    extend_outcome(votes, text, channel)
                } else if name == "remember"@ {
                    Ok((votes, Seq::empty()))
                } else if name == "result"@ {
                    self.result_outcome(votes, text, channel)
                } else if name == "myvote"@ {
                    Ok((votes, seq![myvote_reply(votes, user, channel)]))
                } else if name == "add"@ {
                    Ok((votes, Seq::empty()))
                } else if name == "vote"@ {
                    self.vote_outcome(votes, command, user, text, channel)
                } else if name == "help"@ {
                    self.help_outcome(votes, text, channel)
                } else if name == "slots"@ {
                    Ok((votes, Seq::empty()))
                } else {
                    match self.entry(command) {
                        None => Err(CommandFailure::UnknownCommand),
                        Some(_) => Ok(
                            (
                                votes,
                                seq![
                                    ActionView::RunResponse {
                                        key: command,
                                        user,
                                        text,
                                        channel,
                                    },
                                ],
                            ),
                        ),
                    }
                },
            },
        }
    }

    /// Whether the message asks for the slot machine.
    pub open spec fn is_slots(&self, text: Seq<char>) -> bool {
        match self.command_in(text) {
            Some(command) => after_first_byte(command) == Some("slots"@),
            None => false,
        }
    }

    /// Starting a session: only where none runs and the message gives a duration.
    pub open spec fn svote_outcome(
        &self,
        votes: VoteView,
        command: Seq<char>,
        text: Seq<char>,
        channel: Seq<char>,
    ) -> Outcome {
        if !votes.has_started && regex_is_match(time_pattern(), text) {
            match time_value(regex_find(time_pattern(), text)) {
                None => Err(CommandFailure::UnreadableTime),
                Some(t) => {
                    let location: Option<Seq<char>> = if regex_is_match(file_pattern(), text) {
                        match regex_group1(file_pattern(), text) {
                            Some(g) => Some(self.location_path@ + g),
                            None => None,
                        }
                    } else {
                        Some(Seq::empty())
                    };
                    match location {
                        None => Err(CommandFailure::MissingCapture),
                        Some(l) => match self.entry(command) {
                            None => Err(CommandFailure::UnknownCommand),
                            Some(c) => Ok(
                                (
                                    votes,
                                    seq![
                                        ActionView::StartSession {
                                            session: new_vote_view(t, l),
                                            reminder: c.response_message@,
                                            interval: c.repeat_interval,
                                            reminder_channel: self.channel@,
                                            channel,
                                        },
                                    ],
                                ),
                            ),
                        },
                    }
                },
            }
        } else {
            Ok((votes, Seq::empty()))
        }
    }

    /// Ranking the votes against the result the message gives.
    pub open spec fn result_outcome(&self, votes: VoteView, text: Seq<char>, channel: Seq<char>) -> Outcome {
        if regex_is_match(time_pattern(), text) {
            match time_value(regex_find(time_pattern(), text)) {
                None => Err(CommandFailure::UnreadableTime),
                Some(w) => match ranking(votes.times, w) {
                    None => Err(CommandFailure::UnrankableVotes),
                    Some(rk) => if rk.len() == 0 {
                        Ok((votes, Seq::empty()))
                    } else {
                        let count = if votes.times.len() < self.num_winners {
                            votes.times.len() as int
                        } else {
                            self.num_winners as int
                        };
                        Ok(
                            (
                                votes,
                                seq![say(rk[0].2 + " "@ + self.winner_message@, channel)]
                                    + ranking_lines(rk, count, channel),
                            ),
                        )
                    },
                },
            }
        } else {
            Ok((votes, Seq::empty()))
        }
    }

    /// Voting: only while the session runs; without a time in the message, the command's help.
    pub open spec fn vote_outcome(
        &self,
        votes: VoteView,
        command: Seq<char>,
        user: Seq<char>,
        text: Seq<char>,
        channel: Seq<char>,
    ) -> Outcome {
        if votes.has_started {
            if regex_is_match(time_pattern(), text) {
                let tm = regex_find(time_pattern(), text);
                let v2 = VoteView { times: put(votes.times, user, trim(tm)), ..votes };
                let sheet = if value_of(votes.times, user) is None && votes.has_local_file {
                    seq![
                        ActionView::AppendSheet {
                            path: votes.location,
                            line: sheet_line_spec(user, trim(tm)),
                        },
                    ]
                } else {
                    Seq::empty()
                };
                Ok((v2, sheet + seq![say(user + " voted on "@ + tm, channel)]))
            } else {
                match self.entry(command) {
                    None => Err(CommandFailure::UnknownCommand),
                    Some(c) => Ok((votes, seq![say("@"@ + user + " "@ + c.help@, channel)])),
                }
            }
        } else {
            Ok(
                (
                    votes,
                    seq![say("@"@ + user + " there is currently no active voting session"@, channel)],
                ),
            )
        }
    }

    /// Help: the list of commands, or the help text of the command the message names.
    pub open spec fn help_outcome(&self, votes: VoteView, text: Seq<char>, channel: Seq<char>) -> Outcome {
        if !regex_is_match(help_pattern(), text) {
            match help_lists(self.commands.table()) {
                None => Err(CommandFailure::MalformedCommand),
                Some(lists) => Ok((votes, seq![say(help_text(lists), channel)])),
            }
        } else {
            match regex_group1(help_pattern(), text) {
                None => Err(CommandFailure::MissingCapture),
                Some(g) => {
                    let asked = self.command_symbol@ + g;
                    if regex_is_match(self.command_pattern(), asked) {
                        match self.entry(asked) {
                            None => Err(CommandFailure::UnknownCommand),
                            Some(c) => Ok((votes, seq![say(c.help@, channel)])),
                        }
                    } else {
                        Ok((votes, Seq::empty()))
                    }
                },
            }
        }
    }
}

/// Extending a session by the time the message gives; a session that stopped runs again.
pub open spec fn extend_outcome(votes: VoteView, text: Seq<char>, channel: Seq<char>) -> Outcome {
    if regex_is_match(time_pattern(), text) {
        match time_value(regex_find(time_pattern(), text)) {
            None => Err(CommandFailure::UnreadableTime),
            Some(t) => {
                let v2 = VoteView { time_left: votes.time_left.push(t), ..votes };
                if !votes.has_started {
                    Ok(
                        (
                            v2,
                            seq![
                                say("The voting session has been reopened!"@, channel),
                                ActionView::ResumeSession { channel },
                            ],
                        ),
                    )
                } else {
                    Ok((v2, seq![say("The voting session has been extended!"@, channel)]))
                }
            },
        }
    } else {
        Ok((votes, Seq::empty()))
    }
}

/// The answer to `myvote`.
pub open spec fn myvote_reply(votes: VoteView, user: Seq<char>, channel: Seq<char>) -> ActionView {
    match value_of(votes.times, user) {
        Some(t) => say(user + " voted on "@ + t, channel),
        None => say(user + ", you have not voted in this session"@, channel),
    }
}


/// `a` followed by `b`.
fn joined(a: &str, b: &str) -> (r: String)
    ensures
        r@ == a@ + b@,
{
    let mut r = String::from_str(a);
    r.append(b);
    r
}

fn say_to(text: String, channel: &String) -> (a: BotAction)
    ensures
        a@ == say(text@, channel@),
{
    BotAction::Say { text, channel: channel.clone() }
}

fn nothing() -> (v: Vec<BotAction>)
    ensures
        actions_view(v@) == Seq::<ActionView>::empty(),
{
    let v: Vec<BotAction> = Vec::new();
    assert(actions_view(v@) =~= Seq::<ActionView>::empty());
    v
}

fn just(a: BotAction) -> (v: Vec<BotAction>)
    ensures
        actions_view(v@) == seq![a@],
{
    let ghost av = a@;
    let mut v: Vec<BotAction> = Vec::new();
    v.push(a);
    assert(actions_view(v@) =~= seq![av]);
    v
}

fn pair(a: BotAction, b: BotAction) -> (v: Vec<BotAction>)
    ensures
        actions_view(v@) == seq![a@, b@],
{
    let ghost av = a@;
    let ghost bv = b@;
    let mut v: Vec<BotAction> = Vec::new();
    v.push(a);
    v.push(b);
    assert(actions_view(v@) =~= seq![av, bv]);
    v
}

/// `s` without its first character, where that character takes one byte.
fn after_first_byte_of(s: &str) -> (r: Option<String>)
    ensures
        match r {
            Some(x) => after_first_byte(s@) == Some(x@),
            None => after_first_byte(s@) is None,
        },
{
    let v = chars_of(s);
    if v.len() > 0 && (v[0] as u32) < 128 {
        let r = string_of(&v, 1, v.len());
        assert(v@.subrange(1, v@.len() as int) == v@.drop_first());
        Some(r)
    } else {
        None
    }
}

/// The answer to `myvote` from `user`.
fn myvote_answer(votes: &VoteObj, user: &String, channel: &String) -> (a: BotAction)
    requires
        votes.wf(),
    ensures
        a@ == myvote_reply(votes@, user@, channel@),
{
    proof {
        lemma_key_index(votes@.times, user@);
    }
    let n = votes.times.len();
    let mut i: usize = n;
    while i > 0
        invariant
            i <= n == votes.times@.len(),
            crate::arabot::message::key_index(votes@.times, user@) < i,
            -1 <= crate::arabot::message::key_index(votes@.times, user@) < votes@.times.len(),
            crate::arabot::message::key_index(votes@.times, user@) == -1 <==> forall|j: int|
                0 <= j < votes@.times.len() ==> votes@.times[j].0 != user@,
            crate::arabot::message::keys_distinct(votes@.times),
            crate::arabot::message::key_index(votes@.times, user@) >= 0
                ==> votes@.times[crate::arabot::message::key_index(votes@.times, user@)].0 == user@,
        decreases i,
    {
        if votes.times[i - 1].0 == *user {
            proof {
                crate::arabot::message::lemma_key_index_distinct(votes@.times, i - 1);
            }
            let mut t = joined(user.as_str(), " voted on ");
            t.append(votes.times[i - 1].1.as_str());
            return say_to(t, channel);
        }
        i = i - 1;
    }
    say_to(joined(user.as_str(), ", you have not voted in this session"), channel)
}


/// Whether `name` is `lit`.
fn is_named(name: &String, lit: &str) -> (r: bool)
    ensures
        r == (name@ == lit@),
{
    *name == String::from_str(lit)
}

/// Where a prefix of the table has a key that cannot lose its symbol, so has the whole table.
proof fn lemma_help_lists_prefix_none<R>(t: Seq<(Seq<char>, ChatCommand<R>)>, k: int)
    requires
        0 <= k <= t.len(),
        help_lists(t.subrange(0, k)) is None,
    ensures
        help_lists(t) is None,
    decreases t.len() - k,
{
    if k < t.len() {
        assert(t.subrange(0, k + 1).drop_last() == t.subrange(0, k));
        lemma_help_lists_prefix_none(t, k + 1);
    } else {
        assert(t.subrange(0, k) == t);
    }
}

impl<R> CommandProcessor<R> {
    /// The entry found by `lookup` is the one the table holds under the key.
    proof fn lemma_entry_at(&self, key: Seq<char>, i: int)
        requires
            i == crate::arabot::message::key_index(self.commands.table(), key),
            0 <= i < self.commands.commands@.len(),
        ensures
            self.entry(key) == Some(self.commands.commands@[i].1),
    {
    }

    fn svote(&self, votes: &VoteObj, command: &String, msg: &ChatMessage) -> (r: Result<
        Vec<BotAction>,
        CommandFailure,
    >)
        requires
            self.wf(),
        ensures
            meets(r, votes@, votes@, self.svote_outcome(votes@, command@, msg.text@, msg.channel@)),
    {
        if votes.has_started {
            return Ok(nothing());
        }
        let tm = match pattern_find(&self.regexes.time_regex, msg.text.as_str()) {
            Some(m) => m,
            None => {
                return Ok(nothing());
            },
        };
        let t = match read_time(tm.as_str()) {
            Some(t) => t,
            None => {
                return Err(CommandFailure::UnreadableTime);
            },
        };
        let location = if pattern_is_match(&self.regexes.file_regex, msg.text.as_str()) {
            match pattern_group1(&self.regexes.file_regex, msg.text.as_str()) {
                Some(g) => joined(self.location_path.as_str(), g.as_str()),
                None => {
                    return Err(CommandFailure::MissingCapture);
                },
            }
        } else {
            String::new()
        };
        let idx = match self.commands.lookup(command) {
            Some(i) => i,
            None => {
                return Err(CommandFailure::UnknownCommand);
            },
        };
        proof {
            self.lemma_entry_at(command@, idx as int);
        }
        let entry = &self.commands.commands[idx].1;
        let session = VoteObj::new(t, location);
        Ok(
            just(
                BotAction::StartSession {
                    session,
                    reminder: entry.response_message.clone(),
                    interval: entry.repeat_interval,
                    reminder_channel: self.channel.clone(),
                    channel: msg.channel.clone(),
                },
            ),
        )
    }

    fn extend(&self, votes: &mut VoteObj, msg: &ChatMessage) -> (r: Result<
        Vec<BotAction>,
        CommandFailure,
    >)
        requires
            self.wf(),
            old(votes).wf(),
        ensures
            final(votes).wf(),
            meets(r, old(votes)@, final(votes)@, extend_outcome(old(votes)@, msg.text@, msg.channel@)),
    {
        let tm = match pattern_find(&self.regexes.time_regex, msg.text.as_str()) {
            Some(m) => m,
            None => {
                return Ok(nothing());
            },
        };
        let t = match read_time(tm.as_str()) {
            Some(t) => t,
            None => {
                return Err(CommandFailure::UnreadableTime);
            },
        };
        let was_running = votes.has_started;
        votes.time_left.push(t);
        if !was_running {
            Ok(
                pair(
                    say_to(String::from_str("The voting session has been reopened!"), &msg.channel),
                    BotAction::ResumeSession { channel: msg.channel.clone() },
                ),
            )
        } else {
            Ok(just(say_to(String::from_str("The voting session has been extended!"), &msg.channel)))
        }
    }

    fn result(&self, votes: &VoteObj, msg: &ChatMessage) -> (r: Result<
        Vec<BotAction>,
        CommandFailure,
    >)
        requires
            self.wf(),
        ensures
            meets(r, votes@, votes@, self.result_outcome(votes@, msg.text@, msg.channel@)),
    {
        let tm = match pattern_find(&self.regexes.time_regex, msg.text.as_str()) {
            Some(m) => m,
            None => {
                return Ok(nothing());
            },
        };
        let w = match read_time(tm.as_str()) {
            Some(t) => t,
            None => {
                return Err(CommandFailure::UnreadableTime);
            },
        };
        let rk = match rank_votes(&votes.times, w) {
            Some(r) => r,
            None => {
                return Err(CommandFailure::UnrankableVotes);
            },
        };
        let ghost rkv = crate::arabot::ranking::scored_views(rk@);
        proof {
            crate::arabot::ranking::lemma_ranking_sorted_permutation(votes@.times, w);
        }
        if rk.len() == 0 {
            return Ok(nothing());
        }
        let count = if votes.times.len() < self.num_winners {
            votes.times.len()
        } else {
            self.num_winners
        };
        let mut first = joined(rk[0].2.as_str(), " ");
        first.append(self.winner_message.as_str());
        let mut out = just(say_to(first, &msg.channel));
        let ghost head = actions_view(out@);
        let mut i: usize = 0;
        while i < count
            invariant
                i <= count <= rk@.len(),
                rkv == crate::arabot::ranking::scored_views(rk@),
                actions_view(out@) == head + ranking_lines(rkv, i as int, msg.channel@),
            decreases count - i,
        {
            let mut line = String::new();
            push_decimal(&mut line, i + 1);
            assert(Seq::<char>::empty() + decimal((i + 1) as nat) == decimal((i + 1) as nat));
            line.append(") ");
            line.append(rk[i].2.as_str());
            line.append(" ");
            line.append(rk[i].1.as_str());
            let ghost before = actions_view(out@);
            out.push(say_to(line, &msg.channel));
            assert(actions_view(out@) == before.push(out@.last()@));
            assert(ranking_lines(rkv, i + 1, msg.channel@) =~= ranking_lines(
                rkv,
                i as int,
                msg.channel@,
            ).push(say(decimal((i + 1) as nat) + ") "@ + rkv[i as int].2 + " "@ + rkv[i as int].1, msg.channel@)));
            i = i + 1;
        }
        Ok(out)
    }

    fn vote(&self, votes: &mut VoteObj, command: &String, msg: &ChatMessage) -> (r: Result<
        Vec<BotAction>,
        CommandFailure,
    >)
        requires
            self.wf(),
            old(votes).wf(),
        ensures
            final(votes).wf(),
            meets(
                r,
                old(votes)@,
                final(votes)@,
                self.vote_outcome(old(votes)@, command@, msg.user@, msg.text@, msg.channel@),
            ),
    {
        if !votes.has_started {
            let mut t = joined("@", msg.user.as_str());
            t.append(" there is currently no active voting session");
            return Ok(just(say_to(t, &msg.channel)));
        }
        match pattern_find(&self.regexes.time_regex, msg.text.as_str()) {
            Some(tm) => {
                let time = trimmed(tm.as_str());
                let path = votes.location.clone();
                let line = votes.add_vote(msg.user.clone(), time);
                let mut t = joined(msg.user.as_str(), " voted on ");
                t.append(tm.as_str());
                let answer = say_to(t, &msg.channel);
                let ghost av = answer@;
                match line {
                    Some(l) => {
                        let sheet = BotAction::AppendSheet { path, line: l };
                        assert(seq![sheet@] + seq![av] == seq![sheet@, av]);
                        Ok(pair(sheet, answer))
                    },
                    None => {
                        assert(Seq::<ActionView>::empty() + seq![av] == seq![av]);
                        Ok(just(answer))
                    },
                }
            },
            None => {
                let idx = match self.commands.lookup(command) {
                    Some(i) => i,
                    None => {
                        return Err(CommandFailure::UnknownCommand);
                    },
                };
                proof {
                    self.lemma_entry_at(command@, idx as int);
                }
                let mut t = joined("@", msg.user.as_str());
                t.append(" ");
                t.append(self.commands.commands[idx].1.help.as_str());
                Ok(just(say_to(t, &msg.channel)))
            },
        }
    }

    fn help(&self, msg: &ChatMessage) -> (r: Result<Vec<BotAction>, CommandFailure>)
        requires
            self.wf(),
        ensures
            forall|votes: VoteView| #[trigger]
                meets(r, votes, votes, self.help_outcome(votes, msg.text@, msg.channel@)),
    {
        if !pattern_is_match(&self.regexes.help_regex, msg.text.as_str()) {
            let mut viewer = String::new();
            let mut moderator = String::new();
            let mut broadcaster = String::new();
            let n = self.commands.commands.len();
            let mut i: usize = 0;
            assert(self.commands.table().subrange(0, 0) == Seq::<(Seq<char>, ChatCommand<R>)>::empty());
            while i < n
                invariant
                    i <= n == self.commands.commands@.len(),
                    !regex_is_match(help_pattern(), msg.text@),
                    help_lists(self.commands.table().subrange(0, i as int)) == Some(
                        (viewer@, moderator@, broadcaster@),
                    ),
                decreases n - i,
            {
                let ghost sub = self.commands.table().subrange(0, i + 1);
                assert(sub.drop_last() == self.commands.table().subrange(0, i as int));
                assert(sub.last() == self.commands.table()[i as int]);
                let name = match after_first_byte_of(self.commands.commands[i].0.as_str()) {
                    Some(x) => x,
                    None => {
                        proof {
                            lemma_help_lists_prefix_none(self.commands.table(), i + 1);
                        }
                        return Err(CommandFailure::MalformedCommand);
                    },
                };
                match self.commands.commands[i].1.elevation {
                    Elevation::Viewer => {
                        viewer.append(name.as_str());
                        viewer.append(", ");
                    },
                    Elevation::Moderator => {
                        moderator.append(name.as_str());
                        moderator.append(", ");
                    },
                    Elevation::Broadcaster => {
                        broadcaster.append(name.as_str());
                        broadcaster.append(", ");
                    },
                }
                i = i + 1;
            }
            assert(self.commands.table().subrange(0, n as int) == self.commands.table());
            let mut t = String::from_str("Normal commands: ");
            t.append(viewer.as_str());
            t.append(" ");
            t.append("Moderator only commands: ");
            t.append(moderator.as_str());
            t.append(" ");
            t.append("Broadcaster only commands: ");
            t.append(broadcaster.as_str());
            t.append(" ");
            Ok(just(say_to(t, &msg.channel)))
        } else {
            let g = match pattern_group1(&self.regexes.help_regex, msg.text.as_str()) {
                Some(g) => g,
                None => {
                    return Err(CommandFailure::MissingCapture);
                },
            };
            let asked = joined(self.command_symbol.as_str(), g.as_str());
            if pattern_is_match(&self.command_regex, asked.as_str()) {
                let idx = match self.commands.lookup(&asked) {
                    Some(i) => i,
                    None => {
                        return Err(CommandFailure::UnknownCommand);
                    },
                };
                proof {
                    self.lemma_entry_at(asked@, idx as int);
                }
                Ok(just(say_to(self.commands.commands[idx].1.help.clone(), &msg.channel)))
            } else {
                Ok(nothing())
            }
        }
    }

    /// Rolls three emotes for `msg.user`.
    fn slots(&self, msg: &ChatMessage) -> (r: Result<Vec<BotAction>, CommandFailure>)
        ensures
            self.emote_list@.len() == 0 ==> r == Err::<Vec<BotAction>, CommandFailure>(
                CommandFailure::NoEmotes,
            ),
            self.emote_list@.len() > 0 ==> exists|i: int, j: int, k: int|
                0 <= i < self.emote_list@.len() && 0 <= j < self.emote_list@.len() && 0 <= k
                    < self.emote_list@.len() && #[trigger] slot_roll(
                    r,
                    self.emote_list@[i]@,
                    self.emote_list@[j]@,
                    self.emote_list@[k]@,
                    msg.user@,
                    msg.channel@,
                ),
    {
        let e1 = match choose_one(&self.emote_list) {
            Some(e) => e,
            None => {
                return Err(CommandFailure::NoEmotes);
            },
        };
        let e2 = match choose_one(&self.emote_list) {
            Some(e) => e,
            None => {
                return Err(CommandFailure::NoEmotes);
            },
        };
        let e3 = match choose_one(&self.emote_list) {
            Some(e) => e,
            None => {
                return Err(CommandFailure::NoEmotes);
            },
        };
        let mut t = joined(e1.as_str(), " ");
        t.append(e2.as_str());
        t.append(" ");
        t.append(e3.as_str());
        if e1 == e2 && e2 == e3 {
            t.append(" JACKPOT @");
        } else {
            t.append(" @");
        }
        t.append(msg.user.as_str());
        let r = Ok(just(say_to(t, &msg.channel)));
        proof {
            let i = choose|i: int| 0 <= i < self.emote_list@.len() && self.emote_list@[i]@ == e1@;
            let j = choose|j: int| 0 <= j < self.emote_list@.len() && self.emote_list@[j]@ == e2@;
            let k = choose|k: int| 0 <= k < self.emote_list@.len() && self.emote_list@[k]@ == e3@;
            assert(slot_roll(
                r,
                self.emote_list@[i]@,
                self.emote_list@[j]@,
                self.emote_list@[k]@,
                msg.user@,
                msg.channel@,
            ));
        }
        r
    }

    /// Reads the message `msg` and says what the bot does about it: see `outcome`, and for
    /// `slots`, a roll of three of the emotes (or a failure where there are none). Where the
    /// command cannot be carried out (a time it cannot read, a command without an entry, a
    /// command that does not start with a one-byte character), the failure is returned and the
    /// session is left as it was.
    pub fn process(&self, votes: &mut VoteObj, msg: &ChatMessage) -> (r: Result<
        Vec<BotAction>,
        CommandFailure,
    >)
        requires
            self.wf(),
            old(votes).wf(),
        ensures
            final(votes).wf(),
            !self.is_slots(msg.text@) ==> meets(
                r,
                old(votes)@,
                final(votes)@,
                self.outcome(old(votes)@, msg.user@, msg.text@, msg.channel@),
            ),
            self.is_slots(msg.text@) ==> final(votes)@ == old(votes)@ && slots_outcome(
                r,
                self.emote_list@,
                msg.user@,
                msg.channel@,
            ),
    {
        proof {
            reveal_strlit("hello");
            reveal_strlit("svote");
            reveal_strlit("evote");
            reveal_strlit("extend");
            reveal_strlit("remember");
            reveal_strlit("result");
            reveal_strlit("myvote");
            reveal_strlit("add");
            reveal_strlit("vote");
            reveal_strlit("help");
            reveal_strlit("slots");
            assert("slots"@[1] == 'l');
            assert("hello"@[1] == 'e' && "svote"@[1] == 'v' && "evote"@[1] == 'v');
            assert("extend"@[1] == 'x' && "remember"@[1] == 'e' && "result"@[1] == 'e');
            assert("myvote"@[1] == 'y' && "add"@[1] == 'd' && "vote"@[1] == 'o');
            assert("help"@[1] == 'e');
        }
        let cmd_text = trimmed(msg.text.as_str());
        let command = match pattern_find(&self.command_regex, cmd_text.as_str()) {
            Some(c) => c,
            None => {
                return Ok(nothing());
            },
        };
        let name = match after_first_byte_of(command.as_str()) {
            Some(n) => n,
            None => {
                return Err(CommandFailure::MalformedCommand);
            },
        };
        assert(command@ == self.command_in(msg.text@).unwrap());
        assert(name@ == after_first_byte(command@).unwrap());
        if is_named(&name, "hello") {
            Ok(just(say_to(joined("Hello, ", msg.user.as_str()), &msg.channel)))
        } else if is_named(&name, "svote") {
            self.svote(votes, &command, msg)
        } else if is_named(&name, "evote") {
            if votes.has_started {
                Ok(just(BotAction::EndSession))
            } else {
                Ok(nothing())
            }
        } else if is_named(&name, "extend") {
            self.extend(votes, msg)
        } else if is_named(&name, "remember") {
            Ok(nothing())
        } else if is_named(&name, "result") {
            self.result(votes, msg)
        } else if is_named(&name, "myvote") {
            Ok(just(myvote_answer(votes, &msg.user, &msg.channel)))
        } else if is_named(&name, "add") {
            Ok(nothing())
        } else if is_named(&name, "vote") {
            self.vote(votes, &command, msg)
        } else if is_named(&name, "help") {
            let r = self.help(msg);
            assert(meets(r, votes@, votes@, self.help_outcome(votes@, msg.text@, msg.channel@)));
            r
        } else if is_named(&name, "slots") {
            self.slots(msg)
        } else {
            let idx = match self.commands.lookup(&command) {
                Some(i) => i,
                None => {
                    return Err(CommandFailure::UnknownCommand);
                },
            };
            proof {
                self.lemma_entry_at(command@, idx as int);
            }
            Ok(
                just(
                    BotAction::RunResponse {
                        key: command.clone(),
                        user: msg.user.clone(),
                        text: msg.text.clone(),
                        channel: msg.channel.clone(),
                    },
                ),
            )
        }
    }
}

/// `r` announces the roll `e1 e2 e3` to `user` in `channel`.
pub open spec fn slot_roll(
    r: Result<Vec<BotAction>, CommandFailure>,
    e1: Seq<char>,
    e2: Seq<char>,
    e3: Seq<char>,
    user: Seq<char>,
    channel: Seq<char>,
) -> bool {
    r matches Ok(a) && actions_view(a@) == seq![say(slots_text(e1, e2, e3, user), channel)]
}

/// What a slot roll gives: a failure where there are no emotes, otherwise the roll of three
/// emotes of the list (each picked by chance).
pub open spec fn slots_outcome(
    r: Result<Vec<BotAction>, CommandFailure>,
    emotes: Seq<String>,
    user: Seq<char>,
    channel: Seq<char>,
) -> bool {
    &&& emotes.len() == 0 ==> r == Err::<Vec<BotAction>, CommandFailure>(CommandFailure::NoEmotes)
    &&& emotes.len() > 0 ==> exists|i: int, j: int, k: int|
        0 <= i < emotes.len() && 0 <= j < emotes.len() && 0 <= k < emotes.len()
            && #[trigger] slot_roll(r, emotes[i]@, emotes[j]@, emotes[k]@, user, channel)
}


/// Once a running session has recorded the vote of `user`, asking `myvote` gives back the time
/// that `user` voted for.
pub proof fn law_vote_then_myvote<R>(
    p: &CommandProcessor<R>,
    votes: VoteView,
    user: Seq<char>,
    vote_text: Seq<char>,
    ask_text: Seq<char>,
    channel: Seq<char>,
    ask_channel: Seq<char>,
)
    requires
        crate::arabot::message::keys_distinct(votes.times),
        votes.has_started,
        p.command_in(vote_text) matches Some(c) && after_first_byte(c) == Some("vote"@),
        regex_is_match(time_pattern(), vote_text),
        p.command_in(ask_text) matches Some(c) && after_first_byte(c) == Some("myvote"@),
    ensures
        p.outcome(votes, user, vote_text, channel) matches Ok((after, _)) && p.outcome(
            after,
            user,
            ask_text,
            ask_channel,
        ) == Ok::<(VoteView, Seq<ActionView>), CommandFailure>(
            (
                after,
                seq![
                    say(
                        user + " voted on "@ + trim(regex_find(time_pattern(), vote_text)),
                        ask_channel,
                    ),
                ],
            ),
        ),
{
    reveal_strlit("hello");
    reveal_strlit("svote");
    reveal_strlit("evote");
    reveal_strlit("extend");
    reveal_strlit("remember");
    reveal_strlit("result");
    reveal_strlit("myvote");
    reveal_strlit("add");
    reveal_strlit("vote");
    assert("vote"@[0] == 'v' && "myvote"@[0] == 'm');
    assert("hello"@[0] == 'h' && "svote"@[0] == 's' && "evote"@[0] == 'e');
    assert("extend"@[0] == 'e' && "remember"@[0] == 'r' && "result"@[0] == 'r');
    assert("add"@[0] == 'a');
    let tm = trim(regex_find(time_pattern(), vote_text));
    crate::arabot::message::lemma_put(votes.times, user, tm, user);
}


/// The list of the help text that commands of elevation `e` go to.
pub open spec fn list_for(lists: (Seq<char>, Seq<char>, Seq<char>), e: Elevation) -> Seq<char> {
    match e {
        Elevation::Viewer => lists.0,
        Elevation::Moderator => lists.1,
        Elevation::Broadcaster => lists.2,
    }
}

/// What occurs in a text still occurs when more text comes before or after it.
proof fn lemma_contains_within(a: Seq<char>, b: Seq<char>, n: Seq<char>)
    requires
        contains(a, n),
    ensures
        contains(a + b, n),
        contains(b + a, n),
{
    let i = choose|i: int| crate::arabot::text::occurs_at(a, n, i);
    assert((a + b).subrange(i, i + n.len()) == a.subrange(i, i + n.len()));
    assert(crate::arabot::text::occurs_at(a + b, n, i));
    assert((b + a).subrange(i + b.len(), i + b.len() + n.len()) == a.subrange(i, i + n.len()));
    assert(crate::arabot::text::occurs_at(b + a, n, i + b.len()));
}

/// Each command of the table is listed, followed by ", ", in the list of its elevation.
proof fn lemma_help_lists_lists<R>(t: Seq<(Seq<char>, ChatCommand<R>)>, i: int)
    requires
        help_lists(t) is Some,
        0 <= i < t.len(),
    ensures
        after_first_byte(t[i].0) is Some,
        contains(
            list_for(help_lists(t).unwrap(), t[i].1.elevation),
            after_first_byte(t[i].0).unwrap() + ", "@,
        ),
    decreases t.len(),
{
    let prev = t.drop_last();
    let name = after_first_byte(t.last().0).unwrap();
    let (v, m, b) = help_lists(prev).unwrap();
    if i < t.len() - 1 {
        lemma_help_lists_lists(prev, i);
        assert(t[i] == prev[i]);
        let item = after_first_byte(t[i].0).unwrap() + ", "@;
        let e = t[i].1.elevation;
        if e == t.last().1.elevation {
            lemma_contains_within(list_for((v, m, b), e), name + ", "@, item);
            assert(list_for((v, m, b), e) + (name + ", "@) == list_for((v, m, b), e) + name + ", "@);
        }
    } else {
        let item = name + ", "@;
        let l = list_for((v, m, b), t.last().1.elevation);
        assert((l + item).subrange(l.len() as int, (l.len() + item.len()) as int) == item);
        assert(crate::arabot::text::occurs_at(l + item, item, l.len() as int));
        assert(l + item == l + name + ", "@);
    }
}

/// Help without a command name lists every command of the table (its name followed by ", ").
pub proof fn law_help_lists_every_command<R>(t: Seq<(Seq<char>, ChatCommand<R>)>, i: int)
    requires
        help_lists(t) is Some,
        0 <= i < t.len(),
    ensures
        after_first_byte(t[i].0) is Some,
        contains(help_text(help_lists(t).unwrap()), after_first_byte(t[i].0).unwrap() + ", "@),
{
    lemma_help_lists_lists(t, i);
    let lists = help_lists(t).unwrap();
    let item = after_first_byte(t[i].0).unwrap() + ", "@;
    let a = "Normal commands: "@;
    let sp = " "@;
    let mo = "Moderator only commands: "@;
    let br = "Broadcaster only commands: "@;
    match t[i].1.elevation {
        Elevation::Viewer => {
            lemma_contains_within(lists.0, a, item);
            let x = a + lists.0;
            lemma_contains_within(x, sp + mo + lists.1 + sp + br + lists.2 + sp, item);
            assert(x + (sp + mo + lists.1 + sp + br + lists.2 + sp) == help_text(lists));
        },
        Elevation::Moderator => {
            let pre = a + lists.0 + sp + mo;
            lemma_contains_within(lists.1, pre, item);
            let x = pre + lists.1;
            lemma_contains_within(x, sp + br + lists.2 + sp, item);
            assert(x + (sp + br + lists.2 + sp) == help_text(lists));
        },
        Elevation::Broadcaster => {
            let pre = a + lists.0 + sp + mo + lists.1 + sp + br;
            lemma_contains_within(lists.2, pre, item);
            let x = pre + lists.2;
            lemma_contains_within(x, sp, item);
            assert(x + sp == help_text(lists));
        },
    }
}


/// The smaller of `a` and `b`.
pub open spec fn min_nat(a: nat, b: nat) -> nat {
    if a <= b {
        a
    } else {
        b
    }
}

/// The result of a guessing game: where every vote can be scored against the result time
/// `w` and there is at least one, the bot names the closest guesser with the winner message,
/// then lists exactly `min(votes, num_winners)` places, the `k`-th place naming the `k`-th
/// closest vote (`rk` is every scored vote, closest first); the session is unchanged.
pub proof fn law_result_lists_places<R>(
    p: &CommandProcessor<R>,
    votes: VoteView,
    user: Seq<char>,
    text: Seq<char>,
    channel: Seq<char>,
    w: u64,
)
    requires
        p.command_in(text) matches Some(c) && after_first_byte(c) == Some("result"@),
        regex_is_match(time_pattern(), text),
        time_value(regex_find(time_pattern(), text)) == Some(w),
        forall|i: int|
            0 <= i < votes.times.len() ==> #[trigger] crate::arabot::ranking::rankable(
                votes.times[i].1,
                w,
            ),
        votes.times.len() > 0,
    ensures
        ({
            let rk = ranking(votes.times, w).unwrap();
            &&& rk.len() == votes.times.len()
            &&& crate::arabot::ranking::sorted_by_score(rk)
            &&& rk.to_multiset() == crate::arabot::ranking::scores(
                votes.times,
                w,
            ).unwrap().to_multiset()
            &&& p.outcome(votes, user, text, channel) matches Ok((after, acts))
            &&& after == votes
            &&& acts.len() == 1 + min_nat(votes.times.len(), p.num_winners as nat)
            &&& acts[0] == say(rk[0].2 + " "@ + p.winner_message@, channel)
            &&& forall|k: int|
                0 <= k < acts.len() - 1 ==> #[trigger] acts[k + 1] == say(
                    decimal((k + 1) as nat) + ") "@ + rk[k].2 + " "@ + rk[k].1,
                    channel,
                )
        }),
{
    reveal_strlit("hello");
    reveal_strlit("svote");
    reveal_strlit("evote");
    reveal_strlit("extend");
    reveal_strlit("remember");
    reveal_strlit("result");
    reveal_strlit("myvote");
    reveal_strlit("add");
    reveal_strlit("vote");
    assert("vote"@[0] == 'v' && "myvote"@[0] == 'm');
    assert("hello"@[0] == 'h' && "svote"@[0] == 's' && "evote"@[0] == 'e');
    assert("extend"@[0] == 'e' && "remember"@[0] == 'r' && "result"@[0] == 'r');
    assert("remember"@[2] == 'm' && "result"@[2] == 's');
    assert("evote"@[1] == 'v' && "extend"@[1] == 'x');
    assert("add"@[0] == 'a');
    crate::arabot::ranking::lemma_scores_some(votes.times, w);
    crate::arabot::ranking::lemma_ranking_sorted_permutation(votes.times, w);
    let rk = ranking(votes.times, w).unwrap();
    if let Ok((after, acts)) = p.outcome(votes, user, text, channel) {
        let lines = acts.subrange(1, acts.len() as int);
        assert forall|k: int| 0 <= k < acts.len() - 1 implies #[trigger] acts[k + 1] == say(
            decimal((k + 1) as nat) + ") "@ + rk[k].2 + " "@ + rk[k].1,
            channel,
        ) by {
            assert(acts[k + 1] == lines[k]);
        }
    }
}

/// Starting a session: whenever none is running, the message gives a readable duration `t`
/// (and, where it names a sheet, the name can be read) and the command has an entry, the bot
/// starts a fresh session of `t` seconds, stopped and with no votes, whatever votes the
/// stopped session still holds; the current session is left as it is.
pub proof fn law_svote_starts_fresh_session<R>(
    p: &CommandProcessor<R>,
    votes: VoteView,
    user: Seq<char>,
    text: Seq<char>,
    channel: Seq<char>,
    t: u64,
)
    requires
        p.command_in(text) matches Some(c) && after_first_byte(c) == Some("svote"@) && p.entry(
            c,
        ) is Some,
        !votes.has_started,
        regex_is_match(time_pattern(), text),
        time_value(regex_find(time_pattern(), text)) == Some(t),
        regex_is_match(file_pattern(), text) ==> regex_group1(file_pattern(), text) is Some,
    ensures
        ({
            &&& p.outcome(votes, user, text, channel) matches Ok((after, acts))
            &&& after == votes
            &&& acts.len() == 1
            &&& acts[0] matches ActionView::StartSession { session, channel: ch, .. }
            &&& ch == channel
            &&& !session.has_started
            &&& session.time_left == seq![t]
            &&& session.times.len() == 0
        }),
{
    reveal_strlit("hello");
    reveal_strlit("svote");
    reveal_strlit("evote");
    reveal_strlit("extend");
    reveal_strlit("remember");
    reveal_strlit("result");
    reveal_strlit("myvote");
    reveal_strlit("add");
    reveal_strlit("vote");
    assert("vote"@[0] == 'v' && "myvote"@[0] == 'm');
    assert("hello"@[0] == 'h' && "svote"@[0] == 's' && "evote"@[0] == 'e');
    assert("extend"@[0] == 'e' && "remember"@[0] == 'r' && "result"@[0] == 'r');
    assert("remember"@[2] == 'm' && "result"@[2] == 's');
    assert("evote"@[1] == 'v' && "extend"@[1] == 'x');
    assert("add"@[0] == 'a');
}

/// Extending a session: whenever the message gives a readable time `t`, `t` is added to the
/// session's waiting times and nothing else of the session changes, running or not; a
/// running session is announced as extended, a stopped one as reopened and run again.
pub proof fn law_extend_adds_time<R>(
    p: &CommandProcessor<R>,
    votes: VoteView,
    user: Seq<char>,
    text: Seq<char>,
    channel: Seq<char>,
    t: u64,
)
    requires
        p.command_in(text) matches Some(c) && after_first_byte(c) == Some("extend"@),
        regex_is_match(time_pattern(), text),
        time_value(regex_find(time_pattern(), text)) == Some(t),
    ensures
        p.outcome(votes, user, text, channel) matches Ok((after, acts)) && {
            &&& after.time_left == votes.time_left.push(t)
            &&& after.has_started == votes.has_started
            &&& after.times == votes.times
            &&& after.has_local_file == votes.has_local_file
            &&& after.location == votes.location
            &&& votes.has_started ==> acts == seq![
                say("The voting session has been extended!"@, channel),
            ]
            &&& !votes.has_started ==> acts == seq![
                say("The voting session has been reopened!"@, channel),
                ActionView::ResumeSession { channel },
            ]
        },
{
    reveal_strlit("hello");
    reveal_strlit("svote");
    reveal_strlit("evote");
    reveal_strlit("extend");
    reveal_strlit("remember");
    reveal_strlit("result");
    reveal_strlit("myvote");
    reveal_strlit("add");
    reveal_strlit("vote");
    assert("vote"@[0] == 'v' && "myvote"@[0] == 'm');
    assert("hello"@[0] == 'h' && "svote"@[0] == 's' && "evote"@[0] == 'e');
    assert("extend"@[0] == 'e' && "remember"@[0] == 'r' && "result"@[0] == 'r');
    assert("remember"@[2] == 'm' && "result"@[2] == 's');
    assert("evote"@[1] == 'v' && "extend"@[1] == 'x');
    assert("add"@[0] == 'a');
}

/// Voting outside a session: when no session is running, a vote changes nothing and is
/// answered only by telling the voter that no session is active.
pub proof fn law_vote_needs_running_session<R>(
    p: &CommandProcessor<R>,
    votes: VoteView,
    user: Seq<char>,
    text: Seq<char>,
    channel: Seq<char>,
)
    requires
        p.command_in(text) matches Some(c) && after_first_byte(c) == Some("vote"@),
        !votes.has_started,
    ensures
        p.outcome(votes, user, text, channel) == Ok::<(VoteView, Seq<ActionView>), CommandFailure>(
            (
                votes,
                seq![say("@"@ + user + " there is currently no active voting session"@, channel)],
            ),
        ),
{
    reveal_strlit("hello");
    reveal_strlit("svote");
    reveal_strlit("evote");
    reveal_strlit("extend");
    reveal_strlit("remember");
    reveal_strlit("result");
    reveal_strlit("myvote");
    reveal_strlit("add");
    reveal_strlit("vote");
    assert("vote"@[0] == 'v' && "myvote"@[0] == 'm');
    assert("hello"@[0] == 'h' && "svote"@[0] == 's' && "evote"@[0] == 'e');
    assert("extend"@[0] == 'e' && "remember"@[0] == 'r' && "result"@[0] == 'r');
    assert("remember"@[2] == 'm' && "result"@[2] == 's');
    assert("evote"@[1] == 'v' && "extend"@[1] == 'x');
    assert("add"@[0] == 'a');
}

/// Asking for one's vote: whenever the session's votes record `t` for `user`, the answer is
/// `user voted on t`, whether or not the session still runs; where they record nothing for
/// `user`, the answer says so. The session is unchanged either way.
pub proof fn law_myvote_answers_recorded_vote<R>(
    p: &CommandProcessor<R>,
    votes: VoteView,
    user: Seq<char>,
    text: Seq<char>,
    channel: Seq<char>,
)
    requires
        p.command_in(text) matches Some(c) && after_first_byte(c) == Some("myvote"@),
    ensures
        value_of(votes.times, user) matches Some(t) ==> p.outcome(votes, user, text, channel)
            == Ok::<(VoteView, Seq<ActionView>), CommandFailure>(
            (votes, seq![say(user + " voted on "@ + t, channel)]),
        ),
        value_of(votes.times, user) is None ==> p.outcome(votes, user, text, channel) == Ok::<
            (VoteView, Seq<ActionView>),
            CommandFailure,
        >((votes, seq![say(user + ", you have not voted in this session"@, channel)])),
{
    reveal_strlit("hello");
    reveal_strlit("svote");
    reveal_strlit("evote");
    reveal_strlit("extend");
    reveal_strlit("remember");
    reveal_strlit("result");
    reveal_strlit("myvote");
    reveal_strlit("add");
    reveal_strlit("vote");
    assert("vote"@[0] == 'v' && "myvote"@[0] == 'm');
    assert("hello"@[0] == 'h' && "svote"@[0] == 's' && "evote"@[0] == 'e');
    assert("extend"@[0] == 'e' && "remember"@[0] == 'r' && "result"@[0] == 'r');
    assert("remember"@[2] == 'm' && "result"@[2] == 's');
    assert("evote"@[1] == 'v' && "extend"@[1] == 'x');
    assert("add"@[0] == 'a');
}

/// A vote outlives its session: after voting in a running session and the session stopping,
/// asking for one's vote still gives it back.
pub proof fn law_vote_then_stop_then_myvote<R>(
    p: &CommandProcessor<R>,
    votes: VoteView,
    user: Seq<char>,
    vote_text: Seq<char>,
    ask_text: Seq<char>,
    channel: Seq<char>,
    ask_channel: Seq<char>,
)
    requires
        crate::arabot::message::keys_distinct(votes.times),
        votes.has_started,
        p.command_in(vote_text) matches Some(c) && after_first_byte(c) == Some("vote"@),
        regex_is_match(time_pattern(), vote_text),
        p.command_in(ask_text) matches Some(c) && after_first_byte(c) == Some("myvote"@),
    ensures
        p.outcome(votes, user, vote_text, channel) matches Ok((after, _)) && p.outcome(
            crate::arabot::message::finished(after),
            user,
            ask_text,
            ask_channel,
        ) == Ok::<(VoteView, Seq<ActionView>), CommandFailure>(
            (
                crate::arabot::message::finished(after),
                seq![
                    say(
                        user + " voted on "@ + trim(regex_find(time_pattern(), vote_text)),
                        ask_channel,
                    ),
                ],
            ),
        ),
{
    reveal_strlit("hello");
    reveal_strlit("svote");
    reveal_strlit("evote");
    reveal_strlit("extend");
    reveal_strlit("remember");
    reveal_strlit("result");
    reveal_strlit("myvote");
    reveal_strlit("add");
    reveal_strlit("vote");
    assert("vote"@[0] == 'v' && "myvote"@[0] == 'm');
    assert("hello"@[0] == 'h' && "svote"@[0] == 's' && "evote"@[0] == 'e');
    assert("extend"@[0] == 'e' && "remember"@[0] == 'r' && "result"@[0] == 'r');
    assert("remember"@[2] == 'm' && "result"@[2] == 's');
    assert("evote"@[1] == 'v' && "extend"@[1] == 'x');
    assert("add"@[0] == 'a');
    let tm = trim(regex_find(time_pattern(), vote_text));
    crate::arabot::message::lemma_put(votes.times, user, tm, user);
}

/// The result in its other cases: without a time in the message nothing happens; a result
/// time that cannot be read is refused; with no votes nothing is announced; and where a vote
/// cannot be read or lies below the result, the votes are refused as unrankable. The session
/// is unchanged in every case.
pub proof fn law_result_other_cases<R>(
    p: &CommandProcessor<R>,
    votes: VoteView,
    user: Seq<char>,
    text: Seq<char>,
    channel: Seq<char>,
)
    requires
        p.command_in(text) matches Some(c) && after_first_byte(c) == Some("result"@),
    ensures
        !regex_is_match(time_pattern(), text) ==> p.outcome(votes, user, text, channel)
            == Ok::<(VoteView, Seq<ActionView>), CommandFailure>((votes, Seq::empty())),
        regex_is_match(time_pattern(), text) && time_value(regex_find(time_pattern(), text)) is None
            ==> p.outcome(votes, user, text, channel) == Err::<(VoteView, Seq<ActionView>), CommandFailure>(
            CommandFailure::UnreadableTime,
        ),
        regex_is_match(time_pattern(), text) && time_value(regex_find(time_pattern(), text)) is Some
            && votes.times.len() == 0 ==> p.outcome(votes, user, text, channel) == Ok::<(VoteView, Seq<ActionView>), CommandFailure>(
            (votes, Seq::empty()),
        ),
        regex_is_match(time_pattern(), text) && time_value(regex_find(time_pattern(), text)) is Some
            && (exists|i: int|
            0 <= i < votes.times.len() && !#[trigger] crate::arabot::ranking::rankable(
                votes.times[i].1,
                time_value(regex_find(time_pattern(), text)).unwrap(),
            )) ==> p.outcome(votes, user, text, channel) == Err::<(VoteView, Seq<ActionView>), CommandFailure>(
            CommandFailure::UnrankableVotes,
        ),
{
    reveal_strlit("hello");
    reveal_strlit("svote");
    reveal_strlit("evote");
    reveal_strlit("extend");
    reveal_strlit("remember");
    reveal_strlit("result");
    reveal_strlit("myvote");
    reveal_strlit("add");
    reveal_strlit("vote");
    assert("vote"@[0] == 'v' && "myvote"@[0] == 'm');
    assert("hello"@[0] == 'h' && "svote"@[0] == 's' && "evote"@[0] == 'e');
    assert("extend"@[0] == 'e' && "remember"@[0] == 'r' && "result"@[0] == 'r');
    assert("remember"@[2] == 'm' && "result"@[2] == 's');
    assert("evote"@[1] == 'v' && "extend"@[1] == 'x');
    assert("add"@[0] == 'a');
    if regex_is_match(time_pattern(), text) {
        if let Some(w) = time_value(regex_find(time_pattern(), text)) {
            crate::arabot::ranking::lemma_scores_some(votes.times, w);
            if votes.times.len() == 0 {
                assert(crate::arabot::ranking::scores(votes.times, w) == Some(Seq::<crate::arabot::ranking::Scored>::empty()));
                assert(crate::arabot::ranking::sort_by_score(Seq::<crate::arabot::ranking::Scored>::empty()).len() == 0);
            }
        }
    }
}

/// Starting a session, in full: where the message gives a duration `t`, the session that
/// starts keeps its sheet under the folder and the name the message gives (or none, where it
/// names none), and is reminded of with the command's response, at the command's interval, in
/// the processor's channel. While a session runs, or without a time in the message, nothing
/// happens; a duration that cannot be read is refused, and so is a sheet name that cannot be
/// read.
pub proof fn law_svote_session_settings<R>(
    p: &CommandProcessor<R>,
    votes: VoteView,
    user: Seq<char>,
    text: Seq<char>,
    channel: Seq<char>,
    command: Seq<char>,
)
    requires
        p.command_in(text) == Some(command),
        after_first_byte(command) == Some("svote"@),
    ensures
        votes.has_started || !regex_is_match(time_pattern(), text) ==> p.outcome(
            votes,
            user,
            text,
            channel,
        ) == Ok::<(VoteView, Seq<ActionView>), CommandFailure>((votes, Seq::empty())),
        !votes.has_started && regex_is_match(time_pattern(), text) && time_value(
            regex_find(time_pattern(), text),
        ) is None ==> p.outcome(votes, user, text, channel) == Err::<(VoteView, Seq<ActionView>), CommandFailure>(
            CommandFailure::UnreadableTime,
        ),
        !votes.has_started && regex_is_match(time_pattern(), text) && time_value(
            regex_find(time_pattern(), text),
        ) is Some && regex_is_match(file_pattern(), text) && regex_group1(file_pattern(), text)
            is None ==> p.outcome(votes, user, text, channel) == Err::<(VoteView, Seq<ActionView>), CommandFailure>(
            CommandFailure::MissingCapture,
        ),
        !votes.has_started && regex_is_match(time_pattern(), text) && time_value(
            regex_find(time_pattern(), text),
        ) is Some && p.entry(command) is Some && (regex_is_match(file_pattern(), text)
            ==> regex_group1(file_pattern(), text) is Some) ==> ({
            let e = p.entry(command).unwrap();
            &&& p.outcome(votes, user, text, channel) matches Ok((_, acts))
            &&& acts[0] matches ActionView::StartSession {
                session,
                reminder,
                interval,
                reminder_channel,
                ..
            }
            &&& reminder == e.response_message@
            &&& interval == e.repeat_interval
            &&& reminder_channel == p.channel@
            &&& !regex_is_match(file_pattern(), text) ==> !session.has_local_file
                && session.location.len() == 0
            &&& regex_is_match(file_pattern(), text) ==> session.has_local_file == ((p.location_path@ + regex_group1(
                file_pattern(),
                text,
            ).unwrap()).len() > 0) && session.location == crate::arabot::message::sheet_path(
                p.location_path@ + regex_group1(file_pattern(), text).unwrap(),
            )
        }),
{
    reveal_strlit("hello");
    reveal_strlit("svote");
    reveal_strlit("evote");
    reveal_strlit("extend");
    reveal_strlit("remember");
    reveal_strlit("result");
    reveal_strlit("myvote");
    reveal_strlit("add");
    reveal_strlit("vote");
    assert("vote"@[0] == 'v' && "myvote"@[0] == 'm');
    assert("hello"@[0] == 'h' && "svote"@[0] == 's' && "evote"@[0] == 'e');
    assert("extend"@[0] == 'e' && "remember"@[0] == 'r' && "result"@[0] == 'r');
    assert("remember"@[2] == 'm' && "result"@[2] == 's');
    assert("evote"@[1] == 'v' && "extend"@[1] == 'x');
    assert("add"@[0] == 'a');
}

/// Extending without a readable time: with no time in the message nothing happens; a time
/// that cannot be read is refused and the session is unchanged.
pub proof fn law_extend_other_cases<R>(
    p: &CommandProcessor<R>,
    votes: VoteView,
    user: Seq<char>,
    text: Seq<char>,
    channel: Seq<char>,
)
    requires
        p.command_in(text) matches Some(c) && after_first_byte(c) == Some("extend"@),
    ensures
        !regex_is_match(time_pattern(), text) ==> p.outcome(votes, user, text, channel)
            == Ok::<(VoteView, Seq<ActionView>), CommandFailure>((votes, Seq::empty())),
        regex_is_match(time_pattern(), text) && time_value(regex_find(time_pattern(), text)) is None
            ==> p.outcome(votes, user, text, channel) == Err::<(VoteView, Seq<ActionView>), CommandFailure>(
            CommandFailure::UnreadableTime,
        ),
{
    reveal_strlit("hello");
    reveal_strlit("svote");
    reveal_strlit("evote");
    reveal_strlit("extend");
    reveal_strlit("remember");
    reveal_strlit("result");
    reveal_strlit("myvote");
    reveal_strlit("add");
    reveal_strlit("vote");
    assert("vote"@[0] == 'v' && "myvote"@[0] == 'm');
    assert("hello"@[0] == 'h' && "svote"@[0] == 's' && "evote"@[0] == 'e');
    assert("extend"@[0] == 'e' && "remember"@[0] == 'r' && "result"@[0] == 'r');
    assert("remember"@[2] == 'm' && "result"@[2] == 's');
    assert("evote"@[1] == 'v' && "extend"@[1] == 'x');
    assert("add"@[0] == 'a');
}

/// Ending a session: a running session is told to end, and nothing else happens; with no
/// session running nothing happens at all.
pub proof fn law_evote_ends_running_session<R>(
    p: &CommandProcessor<R>,
    votes: VoteView,
    user: Seq<char>,
    text: Seq<char>,
    channel: Seq<char>,
)
    requires
        p.command_in(text) matches Some(c) && after_first_byte(c) == Some("evote"@),
    ensures
        votes.has_started ==> p.outcome(votes, user, text, channel) == Ok::<(VoteView, Seq<ActionView>), CommandFailure>(
            (votes, seq![ActionView::EndSession]),
        ),
        !votes.has_started ==> p.outcome(votes, user, text, channel) == Ok::<(VoteView, Seq<ActionView>), CommandFailure>(
            (votes, Seq::empty()),
        ),
{
    reveal_strlit("hello");
    reveal_strlit("svote");
    reveal_strlit("evote");
    reveal_strlit("extend");
    reveal_strlit("remember");
    reveal_strlit("result");
    reveal_strlit("myvote");
    reveal_strlit("add");
    reveal_strlit("vote");
    assert("vote"@[0] == 'v' && "myvote"@[0] == 'm');
    assert("hello"@[0] == 'h' && "svote"@[0] == 's' && "evote"@[0] == 'e');
    assert("extend"@[0] == 'e' && "remember"@[0] == 'r' && "result"@[0] == 'r');
    assert("remember"@[2] == 'm' && "result"@[2] == 's');
    assert("evote"@[1] == 'v' && "extend"@[1] == 'x');
    assert("add"@[0] == 'a');
}

/// Voting in a running session: the voter's vote becomes the time the message gives
/// (trimmed), every other voter keeps their vote, nobody is recorded twice, and nothing else
/// of the session changes. The bot confirms the vote as written; before that, a first vote
/// is appended to the sheet where the session keeps one. Without a time in the message the
/// voter is told the command's help.
pub proof fn law_vote_in_running_session<R>(
    p: &CommandProcessor<R>,
    votes: VoteView,
    user: Seq<char>,
    text: Seq<char>,
    channel: Seq<char>,
    command: Seq<char>,
)
    requires
        p.command_in(text) == Some(command),
        after_first_byte(command) == Some("vote"@),
        votes.has_started,
        crate::arabot::message::keys_distinct(votes.times),
    ensures
        regex_is_match(time_pattern(), text) ==> ({
            let tm = regex_find(time_pattern(), text);
            let first = value_of(votes.times, user) is None && votes.has_local_file;
            &&& p.outcome(votes, user, text, channel) matches Ok((after, acts))
            &&& value_of(after.times, user) == Some(trim(tm))
            &&& forall|other: Seq<char>|
                other != user ==> #[trigger] value_of(after.times, other) == value_of(
                    votes.times,
                    other,
                )
            &&& crate::arabot::message::keys_distinct(after.times)
            &&& after.has_started && after.time_left == votes.time_left
            &&& after.has_local_file == votes.has_local_file && after.location == votes.location
            &&& acts.len() == (if first { 2int } else { 1int })
            &&& acts.last() == say(user + " voted on "@ + tm, channel)
            &&& first ==> acts[0] == ActionView::AppendSheet {
                path: votes.location,
                line: user + ";"@ + trim(tm),
            }
        }),
        !regex_is_match(time_pattern(), text) && p.entry(command) is Some ==> p.outcome(
            votes,
            user,
            text,
            channel,
        ) == Ok::<(VoteView, Seq<ActionView>), CommandFailure>(
            (votes, seq![say("@"@ + user + " "@ + p.entry(command).unwrap().help@, channel)]),
        ),
{
    reveal_strlit("hello");
    reveal_strlit("svote");
    reveal_strlit("evote");
    reveal_strlit("extend");
    reveal_strlit("remember");
    reveal_strlit("result");
    reveal_strlit("myvote");
    reveal_strlit("add");
    reveal_strlit("vote");
    assert("vote"@[0] == 'v' && "myvote"@[0] == 'm');
    assert("hello"@[0] == 'h' && "svote"@[0] == 's' && "evote"@[0] == 'e');
    assert("extend"@[0] == 'e' && "remember"@[0] == 'r' && "result"@[0] == 'r');
    assert("remember"@[2] == 'm' && "result"@[2] == 's');
    assert("evote"@[1] == 'v' && "extend"@[1] == 'x');
    assert("add"@[0] == 'a');
    let tm = trim(regex_find(time_pattern(), text));
    crate::arabot::message::lemma_put(votes.times, user, tm, user);
    assert forall|other: Seq<char>|
        other != user implies #[trigger] value_of(
        crate::arabot::message::put(votes.times, user, tm),
        other,
    ) == value_of(votes.times, other) by {
        crate::arabot::message::lemma_put(votes.times, user, tm, other);
    }
}

} // verus!
