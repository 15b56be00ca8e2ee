use arabot::arabot::dispatch::{BotAction, CommandFailure, CommandProcessor, SetupFailure};
use arabot::arabot::message::{ChatCommand, ChatMessage, Elevation, VoteObj, VoteRegex};
use arabot::arabot::ranking::rank_votes;
use arabot::arabot::text::{
    chars_of, contains_str, convert_string_int, parse_u64_chars, push_decimal, read_time,
    split_chars, trimmed,
};
use arabot::arabot::{Arabot, ChatReader, CommandHash};

type Response = Box<dyn FnMut(String, String) -> String>;

fn command(name: &str, elevation: Elevation, message: &str, help: &str, interval: i64) -> ChatCommand<Response> {
    let reply = message.to_string();
    ChatCommand::new(
        name.to_string(),
        elevation,
        message.to_string(),
        Box::new(move |_user, _text| reply.clone()),
        help.to_string(),
        interval,
    )
}

fn table() -> CommandHash<Response> {
    let mut commands = CommandHash::new();
    commands.add_command(command("hello", Elevation::Viewer, "Hello", "Says hello", 0), "!".to_string());
    commands.add_command(
        command("vote", Elevation::Viewer, "Registers a vote", "Lets you register a vote", 0),
        "!".to_string(),
    );
    commands.add_command(
        command("myvote", Elevation::Viewer, "Returns what you voted for", "Tells your vote", 0),
        "!".to_string(),
    );
    commands.add_command(
        command("svote", Elevation::Moderator, "Starts a vote", "Starts a new voting session", 30),
        "!".to_string(),
    );
    commands.add_command(
        command("extend", Elevation::Moderator, "Extends", "Extends the session", 0),
        "!".to_string(),
    );
    commands.add_command(command("evote", Elevation::Moderator, "Ends a vote", "Ends a session", 0), "!".to_string());
    commands.add_command(
        command("result", Elevation::Broadcaster, "Registers the result", "Registers the result", 0),
        "!".to_string(),
    );
    commands.add_command(command("help", Elevation::Viewer, "Displays commands", "Displays commands", 0), "!".to_string());
    commands.add_command(command("slots", Elevation::Viewer, "Rolls", "Rolls emotes", 0), "!".to_string());
    commands.add_command(command("specs", Elevation::Viewer, "I dno", "Lists the specs", 600), "!".to_string());
    commands
}

fn processor(emotes: Vec<&str>) -> CommandProcessor<Response> {
    match CommandProcessor::new(
        table(),
        "!".to_string(),
        "#imaltont".to_string(),
        emotes.into_iter().map(|e| e.to_string()).collect(),
        3,
        "wins!".to_string(),
        "perfect!".to_string(),
        "votes/".to_string(),
    ) {
        Ok(p) => p,
        Err(_) => panic!("the patterns compile"),
    }
}

fn message(user: &str, text: &str) -> ChatMessage {
    ChatMessage { user: user.to_string(), roles: Elevation::Viewer, text: text.to_string(), channel: "#chan".to_string() }
}

fn says(actions: &[BotAction]) -> Vec<String> {
    actions
        .iter()
        .filter_map(|a| match a {
            BotAction::Say { text, .. } => Some(text.clone()),
            _ => None,
        })
        .collect()
}

fn run(p: &CommandProcessor<Response>, votes: &mut VoteObj, user: &str, text: &str) -> Vec<BotAction> {
    match p.process(votes, &message(user, text)) {
        Ok(a) => a,
        Err(e) => panic!("command failed: {:?}", e),
    }
}

#[test]
fn convert_reads_clock_times() {
    assert_eq!(convert_string_int("1:02:03"), 3723);
    assert_eq!(convert_string_int("2:00"), 120);
    assert_eq!(convert_string_int(" 42 "), 42);
    assert_eq!(convert_string_int("1:0:0:0:0:0:0:0:0:0:0"), 60u64.pow(10));
    assert_eq!(read_time("1:02:03"), Some(3723));
}

#[test]
fn convert_reads_written_times() {
    assert_eq!(convert_string_int(&format!("{}:{:02}", 12, 5)), 725);
    assert_eq!(convert_string_int(&format!("{}:{:02}:{:02}", 3, 4, 5)), 11045);
    assert_eq!(convert_string_int(&7u64.to_string()), 7);
    assert_eq!(read_time(&format!("{}:{:02}", 0, 9)), Some(9));
}

#[test]
fn convert_rejects_what_does_not_parse() {
    assert_eq!(read_time("a"), None);
    assert_eq!(read_time("1::2"), None);
    assert_eq!(read_time(""), None);
    assert_eq!(read_time("-5"), None);
    assert_eq!(read_time("1: 02"), None);
    assert_eq!(read_time("+7"), Some(7));
}

#[test]
fn convert_rejects_overflow() {
    assert_eq!(read_time("18446744073709551615"), Some(u64::MAX));
    assert_eq!(read_time("18446744073709551616"), None);
    assert_eq!(read_time("0:0:0:0:0:0:0:0:0:0:0:0"), None);
    assert_eq!(read_time("5124095576030431:0:15"), Some(18446744073709551615));
    assert_eq!(read_time("5124095576030431:0:16"), None);
}

#[test]
fn text_helpers() {
    assert_eq!(trimmed("\t a b \u{3000}"), "a b");
    assert_eq!(trimmed("   "), "");
    let parts: Vec<String> = split_chars(&chars_of("1::2"), ':').into_iter().map(|p| p.into_iter().collect()).collect();
    assert_eq!(parts, vec!["1".to_string(), "".to_string(), "2".to_string()]);
    assert!(contains_str("badges=moderator/1;", "moderator"));
    assert!(!contains_str("badges=subscriber/1;", "moderator"));
    assert!(contains_str("abc", ""));
    assert_eq!(parse_u64_chars(&chars_of("007")), Some(7));
    let mut s = String::from("n=");
    push_decimal(&mut s, 1203);
    assert_eq!(s, "n=1203");
}

#[test]
fn bot_joins_channel_with_hash() {
    let bot = Arabot::new("arabot".to_string(), "SECRET-REDACTED".to_string(), "imaltont".to_string(), "!".to_string(), 1);
    assert_eq!(bot.twitch_channel, "#imaltont");
    assert_eq!(bot.command_symbol, "!");
    assert_eq!(bot.oauth(), "SECRET-REDACTED");
    assert_eq!(bot.message_wait(), 1);
    assert!(bot.incoming_queue.is_empty() && bot.answer_queue.is_empty());
}

#[test]
fn add_command_keys_by_symbol_and_replaces() {
    let mut commands: CommandHash<Response> = CommandHash::new();
    commands.add_command(command("hello", Elevation::Viewer, "Hello", "Says hello", 0), "!".to_string());
    commands.add_command(command("vote", Elevation::Viewer, "Vote", "Votes", 0), "!".to_string());
    commands.add_command(command("hello", Elevation::Moderator, "Hi", "Says hi", 0), "!".to_string());
    assert_eq!(commands.commands.len(), 2);
    assert_eq!(commands.commands[0].0, "!hello");
    assert_eq!(commands.commands[0].1.help, "Says hi");
    assert_eq!(commands.lookup(&"!vote".to_string()), Some(1));
    assert_eq!(commands.lookup(&"vote".to_string()), None);
    assert!(commands.is_consistent());
}

#[test]
fn command_pattern_text() {
    let mut commands: CommandHash<Response> = CommandHash::new();
    commands.add_command(command("vote", Elevation::Viewer, "Vote", "Votes", 0), "!".to_string());
    commands.add_command(command("slots", Elevation::Viewer, "Rolls", "Rolls", 0), "!".to_string());
    let text = Arabot::command_pattern(&commands, &"!".to_string());
    assert_eq!(text, r"^^!vote\b|^!slots\b|^!hello\b{1}");
    assert!(Arabot::generate_regex(&commands, &"!".to_string()).is_some());
}

#[test]
fn command_pattern_that_does_not_compile() {
    let mut commands: CommandHash<Response> = CommandHash::new();
    commands.add_command(command("oops(", Elevation::Viewer, "x", "x", 0), "!".to_string());
    assert!(Arabot::generate_regex(&commands, &"!".to_string()).is_none());
    let r = CommandProcessor::new(
        commands,
        "!".to_string(),
        "#c".to_string(),
        vec![],
        3,
        "w".to_string(),
        "p".to_string(),
        "".to_string(),
    );
    assert!(matches!(r, Err(SetupFailure::CommandPattern)));
}

#[test]
fn new_session_and_sheet() {
    let v = VoteObj::new(90, "finals".to_string());
    assert!(!v.has_started);
    assert_eq!(v.time_left, vec![90]);
    assert!(v.has_local_file);
    assert_eq!(v.location, "finals.csv");
    let w = VoteObj::new(5, String::new());
    assert!(!w.has_local_file);
    assert_eq!(w.location, "");
    assert_eq!(arabot::arabot::message::sheet_header(), "Name;Result\n");
    assert_eq!(arabot::arabot::message::sheet_line("ann", "1:00"), "ann;1:00");
}

#[test]
fn add_vote_records_and_replaces() {
    let mut v = VoteObj::new(90, "finals".to_string());
    assert_eq!(v.add_vote("ann".to_string(), "1:00".to_string()), Some("ann;1:00".to_string()));
    assert_eq!(v.add_vote("bob".to_string(), "2:00".to_string()), Some("bob;2:00".to_string()));
    assert_eq!(v.add_vote("ann".to_string(), "3:00".to_string()), None);
    assert_eq!(v.times, vec![("ann".to_string(), "3:00".to_string()), ("bob".to_string(), "2:00".to_string())]);
    assert!(v.is_consistent());
    let mut w = VoteObj::new(5, String::new());
    assert_eq!(w.add_vote("ann".to_string(), "1".to_string()), None);
}

#[test]
fn session_waits_then_stops() {
    let mut v = VoteObj::new(10, String::new());
    v.time_left.push(20);
    v.begin_vote();
    assert!(v.has_started);
    assert_eq!(v.next_wait(), Some(20));
    assert_eq!(v.next_wait(), Some(10));
    assert_eq!(v.next_wait(), None);
    v.finish_vote();
    assert!(!v.has_started);
    assert!(v.time_left.is_empty());
}

#[test]
fn ranking_orders_by_distance_keeping_ties() {
    let times = vec![
        ("ann".to_string(), "110".to_string()),
        ("bob".to_string(), "1:45".to_string()),
        ("cid".to_string(), "105".to_string()),
    ];
    let r = rank_votes(&times, 100).unwrap();
    assert_eq!(
        r,
        vec![
            (5, "1:45".to_string(), "bob".to_string()),
            (5, "105".to_string(), "cid".to_string()),
            (10, "110".to_string(), "ann".to_string()),
        ]
    );
    assert_eq!(rank_votes(&times, 106), None);
    assert_eq!(rank_votes(&vec![("x".to_string(), "zz".to_string())], 0), None);
}

#[test]
fn vote_regexes_compile() {
    let v = VoteRegex::new();
    assert!(v.is_some());
    assert!(v.unwrap().is_consistent());
}

#[test]
fn reader_reads_badges() {
    let reader = ChatReader::new().unwrap();
    let m = reader
        .read("@badges=broadcaster/1,subscriber/0;color= :a!a@a PRIVMSG #c :hi", Some("a".to_string()), "hi".to_string(), "#c".to_string())
        .unwrap();
    assert_eq!(m.roles, Elevation::Broadcaster);
    assert_eq!(m.user, "a");
    let m = reader.read("@badges=moderator/1; :b PRIVMSG #c :yo", None, "yo".to_string(), "#c".to_string()).unwrap();
    assert_eq!(m.roles, Elevation::Moderator);
    assert_eq!(m.user, "No username found");
    let m = reader.read("@badges=; :c PRIVMSG #c :x", None, "x".to_string(), "#c".to_string()).unwrap();
    assert_eq!(m.roles, Elevation::Viewer);
    assert!(reader.read(":d PRIVMSG #c :x", None, "x".to_string(), "#c".to_string()).is_none());
}

#[test]
fn repeaters_skip_start_command() {
    let p = processor(vec!["Kappa"]);
    let r = p.repeaters();
    assert_eq!(r.len(), 1);
    match &r[0] {
        BotAction::Repeat { text, channel, interval } => {
            assert_eq!(text, "I dno");
            assert_eq!(channel, "#imaltont");
            assert_eq!(*interval, 600);
        }
        _ => panic!("a repeating message"),
    }
    assert!(p.is_consistent());
}

#[test]
fn hello_and_ignored_messages() {
    let p = processor(vec!["Kappa"]);
    let mut v = VoteObj::new(0, String::new());
    assert_eq!(says(&run(&p, &mut v, "ann", "  !hello there")), vec!["Hello, ann"]);
    assert!(run(&p, &mut v, "ann", "hello !hello").is_empty());
    assert!(run(&p, &mut v, "ann", "!hellothere").is_empty());
}

#[test]
fn vote_without_session() {
    let p = processor(vec!["Kappa"]);
    let mut v = VoteObj::new(0, String::new());
    assert_eq!(says(&run(&p, &mut v, "ann", "!vote 1:00")), vec!["@ann there is currently no active voting session"]);
    assert!(v.times.is_empty());
}

#[test]
fn start_session_command() {
    let p = processor(vec!["Kappa"]);
    let v = VoteObj::new(0, String::new());
    let mut current = v;
    let a = run(&p, &mut current, "mod", "!svote 60 finals");
    assert_eq!(a.len(), 1);
    match &a[0] {
        BotAction::StartSession { session, reminder, interval, reminder_channel, channel } => {
            assert_eq!(session.time_left, vec![60]);
            assert_eq!(session.location, "votes/finals.csv");
            assert!(session.has_local_file);
            assert_eq!(reminder, "Starts a vote");
            assert_eq!(*interval, 30);
            assert_eq!(reminder_channel, "#imaltont");
            assert_eq!(channel, "#chan");
        }
        _ => panic!("a new session"),
    }
    current.begin_vote();
    assert!(run(&p, &mut current, "mod", "!svote 60").is_empty());
}

#[test]
fn voting_in_a_running_session() {
    let p = processor(vec!["Kappa"]);
    let mut v = VoteObj::new(60, "finals".to_string());
    v.begin_vote();
    let a = run(&p, &mut v, "ann", "!vote 1:05");
    assert_eq!(a.len(), 2);
    match &a[0] {
        BotAction::AppendSheet { path, line } => {
            assert_eq!(path, "finals.csv");
            assert_eq!(line, "ann;1:05");
        }
        _ => panic!("a sheet line"),
    }
    assert_eq!(says(&a), vec!["ann voted on 1:05"]);
    assert_eq!(says(&run(&p, &mut v, "ann", "!myvote")), vec!["ann voted on 1:05"]);
    assert_eq!(says(&run(&p, &mut v, "bob", "!myvote")), vec!["bob, you have not voted in this session"]);
    let again = run(&p, &mut v, "ann", "!vote 70");
    assert_eq!(says(&again), vec!["ann voted on  70"]);
    assert_eq!(again.len(), 1);
    assert_eq!(says(&run(&p, &mut v, "ann", "!myvote")), vec!["ann voted on 70"]);
    assert_eq!(says(&run(&p, &mut v, "ann", "!vote soon")), vec!["@ann Lets you register a vote"]);
}

#[test]
fn result_lists_closest_guesses() {
    let p = processor(vec!["Kappa"]);
    let mut v = VoteObj::new(60, String::new());
    v.begin_vote();
    run(&p, &mut v, "ann", "!vote 110");
    run(&p, &mut v, "bob", "!vote 1:45");
    run(&p, &mut v, "cid", "!vote 2:00");
    run(&p, &mut v, "dan", "!vote 101");
    let a = run(&p, &mut v, "mod", "!result 100");
    assert_eq!(says(&a), vec!["dan wins!", "1) dan 101", "2) bob 1:45", "3) ann 110"]);
    assert_eq!(p.process(&mut v, &message("mod", "!result 2:00")).err(), Some(CommandFailure::UnrankableVotes));
    assert!(run(&p, &mut v, "mod", "!result").is_empty());
}

#[test]
fn extend_and_end() {
    let p = processor(vec!["Kappa"]);
    let mut v = VoteObj::new(60, String::new());
    let a = run(&p, &mut v, "mod", "!extend 30");
    assert_eq!(says(&a), vec!["The voting session has been reopened!"]);
    assert!(matches!(a[1], BotAction::ResumeSession { .. }));
    assert_eq!(v.time_left, vec![60, 30]);
    assert!(run(&p, &mut v, "mod", "!evote").is_empty());
    v.begin_vote();
    assert_eq!(says(&run(&p, &mut v, "mod", "!extend 1:00")), vec!["The voting session has been extended!"]);
    assert_eq!(v.time_left, vec![60, 30, 60]);
    assert!(matches!(run(&p, &mut v, "mod", "!evote")[0], BotAction::EndSession));
}

#[test]
fn help_lists_and_explains() {
    let p = processor(vec!["Kappa"]);
    let mut v = VoteObj::new(0, String::new());
    assert_eq!(
        says(&run(&p, &mut v, "ann", "!help")),
        vec!["Normal commands: hello, vote, myvote, help, slots, specs,  Moderator only commands: svote, extend, evote,  Broadcaster only commands: result,  "]
    );
    assert_eq!(says(&run(&p, &mut v, "ann", "!help vote")), vec!["Lets you register a vote"]);
    assert!(run(&p, &mut v, "ann", "!help nothing").is_empty());
}

#[test]
fn slots_rolls_emotes() {
    let p = processor(vec!["Kappa"]);
    let mut v = VoteObj::new(0, String::new());
    assert_eq!(says(&run(&p, &mut v, "ann", "!slots")), vec!["Kappa Kappa Kappa JACKPOT @ann"]);
    let q = processor(vec![]);
    assert_eq!(q.process(&mut v, &message("ann", "!slots")).err(), Some(CommandFailure::NoEmotes));
}

#[test]
fn other_commands_run_their_response() {
    let mut p = processor(vec!["Kappa"]);
    let mut v = VoteObj::new(0, String::new());
    let a = run(&p, &mut v, "ann", "!specs please");
    match &a[0] {
        BotAction::RunResponse { key, user, text, channel } => {
            assert_eq!(key, "!specs");
            assert_eq!(user, "ann");
            assert_eq!(text, "!specs please");
            assert_eq!(channel, "#chan");
            let i = p.commands.lookup(key).unwrap();
            assert_eq!((p.commands.commands[i].1.response)(user.clone(), text.clone()), "I dno");
        }
        _ => panic!("a response"),
    }
}


#[test]
fn command_with_wide_symbol_is_malformed() {
    let mut commands: CommandHash<Response> = CommandHash::new();
    commands.add_command(command("specs", Elevation::Viewer, "I dno", "Lists the specs", 0), "é".to_string());
    let p = CommandProcessor::new(
        commands,
        "é".to_string(),
        "#c".to_string(),
        vec![],
        3,
        "w".to_string(),
        "p".to_string(),
        "".to_string(),
    )
    .ok()
    .unwrap();
    let mut v = VoteObj::new(0, String::new());
    assert_eq!(p.process(&mut v, &message("ann", "éspecs")).err(), Some(CommandFailure::MalformedCommand));
}

#[test]
fn command_added_under_other_symbol_is_unknown() {
    let mut commands: CommandHash<Response> = CommandHash::new();
    commands.add_command(command("specs", Elevation::Viewer, "I dno", "Lists the specs", 0), "?".to_string());
    let p = CommandProcessor::new(
        commands,
        "!".to_string(),
        "#c".to_string(),
        vec![],
        3,
        "w".to_string(),
        "p".to_string(),
        "".to_string(),
    )
    .ok()
    .unwrap();
    let mut v = VoteObj::new(0, String::new());
    assert_eq!(p.process(&mut v, &message("ann", "!specs")).err(), Some(CommandFailure::UnknownCommand));
    assert_eq!(says(&run(&p, &mut v, "ann", "!hello")), vec!["Hello, ann"]);
}

#[test]
fn time_too_large_is_unreadable() {
    let p = processor(vec!["Kappa"]);
    let mut v = VoteObj::new(60, String::new());
    assert_eq!(
        p.process(&mut v, &message("mod", "!extend 99999999999999999999")).err(),
        Some(CommandFailure::UnreadableTime)
    );
    assert_eq!(v.time_left, vec![60]);
}
