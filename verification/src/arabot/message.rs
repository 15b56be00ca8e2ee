use vstd::prelude::*;
use crate::arabot::pattern::{compile_pattern, Pattern};

verus! {

/// Who may use a command, and who sent a message.
#[derive(Copy, Clone, Debug, PartialEq, Eq, Structural)]
pub enum Elevation {
    Broadcaster,
    Moderator,
    Viewer,
}

/// A chat command: its name (without the command symbol), who it is for, the message it
/// repeats, the response it computes (`R` is the response function), its help text, and how
/// often (in seconds) its message is repeated in the channel; 0 or less means never.
pub struct ChatCommand<R> {
    pub command: String,
    pub elevation: Elevation,
    pub response_message: String,
    pub response: R,
    pub help: String,
    pub repeat_interval: i64,
}

impl<R> ChatCommand<R> {
    pub fn new(c: String, e: Elevation, m: String, r: R, h: String, ri: i64) -> (cmd: ChatCommand<
        R,
    >)
        ensures
            cmd.command == c,
            cmd.elevation == e,
            cmd.response_message == m,
            cmd.response == r,
            cmd.help == h,
            cmd.repeat_interval == ri,
    {
        ChatCommand {
            command: c,
            elevation: e,
            response_message: m,
            response: r,
            help: h,
            repeat_interval: ri,
        }
    }
}

/// A message read from the chat.
pub struct ChatMessage {
    pub user: String,
    pub roles: Elevation,
    pub text: String,
    pub channel: String,
}

/// A reply addressed to a user.
pub struct Reply {
    pub user: String,
    pub text: String,
}

/// Index of the entry whose key is `k` (the last such entry), or -1 where there is none.
pub open spec fn key_index<V>(s: Seq<(Seq<char>, V)>, k: Seq<char>) -> int
    decreases s.len(),
{
    if s.len() == 0 {
        -1
    } else if s.last().0 == k {
        s.len() - 1
    } else {
        key_index(s.drop_last(), k)
    }
}

/// No key occurs twice.
pub open spec fn keys_distinct<V>(s: Seq<(Seq<char>, V)>) -> bool {
    forall|i: int, j: int| 0 <= i < s.len() && 0 <= j < s.len() && i != j ==> s[i].0 != s[j].0
}

/// The value stored under `k`, if any.
pub open spec fn value_of<V>(s: Seq<(Seq<char>, V)>, k: Seq<char>) -> Option<V> {
    let i = key_index(s, k);
    if i >= 0 {
        Some(s[i].1)
    } else {
        None
    }
}

/// `s` with `k` mapped to `v`: the entry of `k` changed in place, or a new entry at the end.
pub open spec fn put<V>(s: Seq<(Seq<char>, V)>, k: Seq<char>, v: V) -> Seq<(Seq<char>, V)> {
    let i = key_index(s, k);
    if i >= 0 {
        s.update(i, (k, v))
    } else {
        s.push((k, v))
    }
}

pub proof fn lemma_key_index<V>(s: Seq<(Seq<char>, V)>, k: Seq<char>)
    ensures
        -1 <= key_index(s, k) < s.len(),
        key_index(s, k) >= 0 ==> s[key_index(s, k)].0 == k,
        key_index(s, k) == -1 <==> forall|i: int| 0 <= i < s.len() ==> s[i].0 != k,
    decreases s.len(),
{
    if s.len() > 0 {
        lemma_key_index(s.drop_last(), k);
        if s.last().0 != k {
            assert forall|i: int| 0 <= i < s.len() && s[i].0 == k implies i < s.len() - 1 by {}
            assert forall|i: int| 0 <= i < s.len() - 1 implies s[i] == s.drop_last()[i] by {}
        }
    }
}

/// In a sequence without repeated keys, the entry at `i` is the one found for its key.
pub proof fn lemma_key_index_distinct<V>(s: Seq<(Seq<char>, V)>, i: int)
    requires
        keys_distinct(s),
        0 <= i < s.len(),
    ensures
        key_index(s, s[i].0) == i,
{
    lemma_key_index(s, s[i].0);
}

/// Putting a key keeps keys distinct; the key then maps to the value put, and every other key
/// keeps its value.
pub proof fn lemma_put<V>(s: Seq<(Seq<char>, V)>, k: Seq<char>, v: V, other: Seq<char>)
    requires
        keys_distinct(s),
    ensures
        keys_distinct(put(s, k, v)),
        value_of(put(s, k, v), k) == Some(v),
        other != k ==> value_of(put(s, k, v), other) == value_of(s, other),
{
    lemma_key_index(s, k);
    lemma_key_index(s, other);
    let t = put(s, k, v);
    assert(keys_distinct(t));
    lemma_key_index(t, k);
    lemma_key_index(t, other);
    if key_index(t, k) >= 0 {
        lemma_key_index_distinct(t, key_index(t, k));
    }
    if key_index(s, k) < 0 {
        lemma_key_index_distinct(t, s.len() as int);
    } else {
        lemma_key_index_distinct(t, key_index(s, k));
    }
    if other != k {
        if key_index(s, other) >= 0 {
            lemma_key_index_distinct(t, key_index(s, other));
        }
    }
}

/// The abstract state of a voting session.
pub struct VoteView {
    pub has_started: bool,
    pub time_left: Seq<u64>,
    pub times: Seq<(Seq<char>, Seq<char>)>,
    pub has_local_file: bool,
    pub location: Seq<char>,
}

/// A voting session: whether it runs, the waiting times still to come (the last is next),
/// the vote of each user (user, time) in the order users first voted, and the sheet file
/// that records the votes, if any.
pub struct VoteObj {
    pub has_started: bool,
    pub time_left: Vec<u64>,
    pub times: Vec<(String, String)>,
    pub has_local_file: bool,
    pub location: String,
}

pub open spec fn pair_views(s: Seq<(String, String)>) -> Seq<(Seq<char>, Seq<char>)> {
    s.map_values(|e: (String, String)| (e.0@, e.1@))
}

impl View for VoteObj {
    type V = VoteView;

    open spec fn view(&self) -> VoteView {
        VoteView {
            has_started: self.has_started,
            time_left: self.time_left@,
            times: pair_views(self.times@),
            has_local_file: self.has_local_file,
            location: self.location@,
        }
    }
}

/// The sheet file that a session started with `location` writes: `location` with `.csv`
/// added, or nothing when `location` is empty.
pub open spec fn sheet_path(location: Seq<char>) -> Seq<char> {
    if location.len() > 0 {
        location + ".csv"@
    } else {
        Seq::empty()
    }
}

/// A fresh session that waits `duration` seconds once started, with no votes.
pub open spec fn new_vote_view(duration: u64, location: Seq<char>) -> VoteView {
    VoteView {
        has_started: false,
        time_left: seq![duration],
        times: Seq::empty(),
        has_local_file: location.len() > 0,
        location: sheet_path(location),
    }
}

/// The session after it starts running.
pub open spec fn begun(v: VoteView) -> VoteView {
    VoteView { has_started: true, ..v }
}

/// The session after its last waiting time is taken.
pub open spec fn waited(v: VoteView) -> VoteView {
    VoteView { time_left: v.time_left.drop_last(), ..v }
}

/// The session after it stops running.
pub open spec fn finished(v: VoteView) -> VoteView {
    VoteView { has_started: false, ..v }
}

/// The session after its waiting times are taken one by one until none is left.
pub open spec fn drained(v: VoteView) -> VoteView
    decreases v.time_left.len(),
{
    if v.time_left.len() == 0 {
        v
    } else {
        drained(waited(v))
    }
}

/// The waiting times that taking them one by one until none is left gives, in that order.
pub open spec fn waits_taken(v: VoteView) -> Seq<u64>
    decreases v.time_left.len(),
{
    if v.time_left.len() == 0 {
        Seq::empty()
    } else {
        seq![v.time_left.last()] + waits_taken(waited(v))
    }
}

/// A whole session run: once started, its waiting times are taken until none is left, last
/// added first, and it is stopped. It then ends stopped with no time left, its votes, sheet and
/// name unchanged.
pub proof fn law_session_run(v: VoteView)
    ensures
        finished(drained(begun(v))) == (VoteView {
            has_started: false,
            time_left: Seq::empty(),
            ..v
        }),
        waits_taken(begun(v)) == v.time_left.reverse(),
{
    lemma_drain(begun(v));
}

proof fn lemma_drain(v: VoteView)
    ensures
        drained(v) == (VoteView { time_left: Seq::empty(), ..v }),
        waits_taken(v) == v.time_left.reverse(),
    decreases v.time_left.len(),
{
    if v.time_left.len() > 0 {
        lemma_drain(waited(v));
        let t = v.time_left;
        assert(t.reverse() == seq![t.last()] + t.drop_last().reverse()) by {
            assert forall|i: int| 0 <= i < t.len() implies #[trigger] t.reverse()[i] == (seq![
                t.last(),
            ] + t.drop_last().reverse())[i] by {}
        }
    } else {
        assert(v.time_left.reverse() == Seq::<u64>::empty());
        assert(v.time_left == Seq::<u64>::empty());
    }
}

/// The line that records a vote in the sheet.
pub open spec fn sheet_line_spec(username: Seq<char>, time: Seq<char>) -> Seq<char> {
    username + ";"@ + time
}

/// The first line of a new sheet.
pub fn sheet_header() -> (r: String)
    ensures
        r@ == "Name;Result\n"@,
{
    String::from_str("Name;Result\n")
}

/// The line that records the vote of `username` for `time` in the sheet.
pub fn sheet_line(username: &str, time: &str) -> (r: String)
    ensures
        r@ == sheet_line_spec(username@, time@),
{
    let mut r = String::from_str(username);
    r.append(";");
    r.append(time);
    r
}

impl VoteObj {
    /// Users are recorded at most once.
    pub open spec fn wf(&self) -> bool {
        keys_distinct(self@.times)
    }

    /// Whether users are recorded at most once.
    pub fn is_consistent(&self) -> (r: bool)
        ensures
            r == self.wf(),
    {
        let n = self.times.len();
        let mut i: usize = 0;
        while i < n
            invariant
                i <= n == self.times@.len(),
                forall|a: int, b: int|
                    0 <= a < i && 0 <= b < n && a != b ==> self@.times[a].0 != self@.times[b].0,
            decreases n - i,
        {
            let mut j: usize = 0;
            while j < n
                invariant
                    i < n == self.times@.len(),
                    j <= n,
                    forall|b: int| 0 <= b < j && b != i ==> self@.times[i as int].0 != self@.times[b].0,
                decreases n - j,
            {
                if j != i && self.times[i].0 == self.times[j].0 {
                    assert(self@.times[i as int].0 == self@.times[j as int].0);
                    return false;
                }
                j = j + 1;
            }
            i = i + 1;
        }
        true
    }

    /// A session that waits `duration` seconds once started, with no votes yet; its sheet is
    /// `location` with `.csv` added, and there is none when `location` is empty.
    pub fn new(duration: u64, location: String) -> (v: VoteObj)
        ensures
            v@ == new_vote_view(duration, location@),
            v.wf(),
    {
        let mut time_left: Vec<u64> = Vec::new();
        time_left.push(duration);
        let has_local_file = location.as_str().unicode_len() != 0;
        let file_name = if has_local_file {
            location.concat(".csv")
        } else {
            String::new()
        };
        let v = VoteObj {
            has_started: false,
            time_left,
            times: Vec::new(),
            has_local_file,
            location: file_name,
        };
        assert(v@.time_left == seq![duration]);
        assert(v@.times == Seq::<(Seq<char>, Seq<char>)>::empty());
        v
    }

    /// The session starts running; waiting out its times is left to the caller, which takes
    /// them one by one with `next_wait` and then calls `finish_vote`.
    pub fn begin_vote(&mut self)
        ensures
            final(self)@ == begun(old(self)@),
    {
        self.has_started = true;
    }

    /// Takes the next waiting time, if any is left: the one added last.
    pub fn next_wait(&mut self) -> (r: Option<u64>)
        ensures
            old(self)@.time_left.len() == 0 ==> r is None && final(self)@ == old(self)@,
            old(self)@.time_left.len() > 0 ==> r == Some(old(self)@.time_left.last())
                && final(self)@ == waited(old(self)@),
    {
        self.time_left.pop()
    }

    /// The session stops running.
    pub fn finish_vote(&mut self)
        ensures
            final(self)@ == finished(old(self)@),
    {
        self.has_started = false;
    }

    /// Records that `username` votes for `time`, replacing an earlier vote of theirs.
    /// Returns the line to append to the sheet: only for a first vote, and only where the
    /// session keeps a sheet.
    pub fn add_vote(&mut self, username: String, time: String) -> (line: Option<String>)
        requires
            old(self).wf(),
        ensures
            final(self).wf(),
            final(self)@ == (VoteView {
                times: put(old(self)@.times, username@, time@),
                ..old(self)@
            }),
            line is Some <==> value_of(old(self)@.times, username@) is None
                && old(self)@.has_local_file,
            line matches Some(l) ==> l@ == sheet_line_spec(username@, time@),
    {
        proof {
            lemma_key_index(self@.times, username@);
            lemma_put(self@.times, username@, time@, username@);
        }
        let ghost old_times = self@.times;
        let n = self.times.len();
        let mut i: usize = 0;
        while i < n
            invariant
                i <= n == self.times@.len(),
                old_times == pair_views(self.times@),
                old_times == old(self)@.times,
                self@ == old(self)@,
                keys_distinct(old_times),
                -1 <= key_index(old_times, username@) < old_times.len(),
                key_index(old_times, username@) == -1 <==> forall|j: int|
                    0 <= j < old_times.len() ==> old_times[j].0 != username@,
                keys_distinct(put(old_times, username@, time@)),
                forall|j: int| 0 <= j < i ==> old_times[j].0 != username@,
            decreases n - i,
        {
            if self.times[i].0 == username {
                assert(old_times[i as int].0 == username@);
                proof {
                    lemma_key_index_distinct(old_times, i as int);
                }
                self.times.set(i, (username, time));
                assert(pair_views(self.times@) == old_times.update(i as int, (username@, time@)));
                self.rewrite_sheet();
                return None;
            }
            i = i + 1;
        }
        let line = if self.has_local_file {
            Some(sheet_line(username.as_str(), time.as_str()))
        } else {
            None
        };
        self.times.push((username, time));
        assert(pair_views(self.times@) == old_times.push((username@, time@)));
        line
    }

    /// Rewrites the sheet after a changed vote; there is nothing to do.
    pub fn rewrite_sheet(&self) {
    }

    /// Reads the sheet back; there is nothing to do.
    pub fn read_sheet(&self) {
    }
}

/// The pattern that finds a time in a message: `[h:]m:ss` or a bare number after a space.
pub open spec fn time_pattern() -> Seq<char> {
    r"(((\d+:)?[0-5]?\d:)[0-5]\d( |$))| \d+( |$)"@
}

/// The pattern whose group 1 is the sheet name after the duration in a start command.
pub open spec fn file_pattern() -> Seq<char> {
    r"(?:\d )(\w*)"@
}

/// The pattern whose group 1 is the session name in a vote.
pub open spec fn vote_pattern() -> Seq<char> {
    r"(?:vote )(\w*)(?: \d)"@
}

/// The pattern whose group 1 is the command asked about in a help request.
pub open spec fn help_pattern() -> Seq<char> {
    r"(?:help )(\w+\b)"@
}

/// The regular expressions that read votes, durations and help requests.
pub struct VoteRegex {
    pub time_regex: Pattern,
    pub file_regex: Pattern,
    pub vote_regex: Pattern,
    pub help_regex: Pattern,
}

impl VoteRegex {
    /// Whether the four patterns are those of the vote commands.
    pub open spec fn wf(&self) -> bool {
        &&& self.time_regex.source() == time_pattern()
        &&& self.file_regex.source() == file_pattern()
        &&& self.vote_regex.source() == vote_pattern()
        &&& self.help_regex.source() == help_pattern()
    }

    /// Whether the four patterns are those of the vote commands.
    pub fn is_consistent(&self) -> (r: bool)
        ensures
            r == self.wf(),
    {
        *self.time_regex.source_text() == String::from_str(r"(((\d+:)?[0-5]?\d:)[0-5]\d( |$))| \d+( |$)")
            && *self.file_regex.source_text() == String::from_str(r"(?:\d )(\w*)")
            && *self.vote_regex.source_text() == String::from_str(r"(?:vote )(\w*)(?: \d)")
            && *self.help_regex.source_text() == String::from_str(r"(?:help )(\w+\b)")
    }

    /// Compiles the four patterns; `None` where one of them does not compile.
    pub fn new() -> (r: Option<VoteRegex>)
        ensures
            r is Some <==> regex_compiles_all(),
            r matches Some(v) ==> v.wf(),
    {
        let time_regex = compile_pattern(r"(((\d+:)?[0-5]?\d:)[0-5]\d( |$))| \d+( |$)");
        let file_regex = compile_pattern(r"(?:\d )(\w*)");
        let vote_regex = compile_pattern(r"(?:vote )(\w*)(?: \d)");
        let help_regex = compile_pattern(r"(?:help )(\w+\b)");
        match (time_regex, file_regex, vote_regex, help_regex) {
            (Ok(time_regex), Ok(file_regex), Ok(vote_regex), Ok(help_regex)) => Some(
                VoteRegex { time_regex, file_regex, vote_regex, help_regex },
            ),
            _ => None,
        }
    }
}

/// Whether the four vote patterns all compile.
pub open spec fn regex_compiles_all() -> bool {
    &&& crate::arabot::pattern::regex_compiles(time_pattern())
    &&& crate::arabot::pattern::regex_compiles(file_pattern())
    &&& crate::arabot::pattern::regex_compiles(vote_pattern())
    &&& crate::arabot::pattern::regex_compiles(help_pattern())
}

} // verus!
