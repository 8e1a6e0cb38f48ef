use server_core::chat::{ChatAction, ChatEvent, ChatRules, ChatSession, Phase};

fn show(actions: Vec<ChatAction>) -> Vec<String> {
    actions
        .into_iter()
        .map(|a| match a {
            ChatAction::Send(t) => format!("send:{t}"),
            ChatAction::Broadcast(t) => format!("bcast:{t}"),
            ChatAction::Close => "close".to_string(),
        })
        .collect()
}

fn line(s: &str) -> ChatEvent {
    ChatEvent::Line(s.to_string())
}

const NOW: &str = "12:34:56";

#[test]
fn echoing_session_full_run() {
    let (mut s, a) = ChatSession::start(ChatRules::echoing(), 1, "127.0.0.1:5000".to_string());
    assert_eq!(show(a), vec!["send:Enter your username:\n"]);
    assert!(s.phase() == Phase::Naming);
    assert_eq!(show(s.step(line("  ada \r\n"), NOW)), vec!["bcast:[12:34:56] ada joined the chat\n"]);
    assert_eq!(s.username(), "ada");
    assert_eq!(show(s.step(line(" hi there \n"), NOW)), vec!["bcast:[12:34:56] ada: hi there\n"]);
    assert!(show(s.step(line("   \n"), NOW)).is_empty());
    let own = ChatEvent::Received { sender: 1, text: "mine".to_string() };
    assert_eq!(show(s.step(own, NOW)), vec!["send:mine"]);
    assert_eq!(
        show(s.step(line("/quit\n"), NOW)),
        vec!["bcast:[12:34:56] ada left the chat\n", "close"]
    );
    assert!(s.phase() == Phase::Ended);
    assert!(show(s.step(line("more\n"), NOW)).is_empty());
}

#[test]
fn echoing_session_ends_silently_on_empty_name_and_read_error() {
    let (mut s, _) = ChatSession::start(ChatRules::echoing(), 1, "a".to_string());
    assert_eq!(show(s.step(line("\n"), NOW)), vec!["close"]);
    let (mut s, _) = ChatSession::start(ChatRules::echoing(), 1, "a".to_string());
    s.step(line("bob\n"), NOW);
    assert_eq!(show(s.step(ChatEvent::ReadFailed, NOW)), vec!["close"]);
    let (mut s, _) = ChatSession::start(ChatRules::echoing(), 1, "a".to_string());
    s.step(line("bob\n"), NOW);
    assert_eq!(show(s.step(ChatEvent::Lagged, NOW)), vec!["close"]);
    let (mut s, _) = ChatSession::start(ChatRules::echoing(), 1, "a".to_string());
    s.step(line("bob\n"), NOW);
    assert_eq!(show(s.step(ChatEvent::Eof, NOW)), vec!["bcast:[12:34:56] bob left the chat\n", "close"]);
}

#[test]
fn reprompting_session_asks_again_and_skips_own_messages() {
    let (mut s, _) = ChatSession::start(ChatRules::reprompting(), 7, "x".to_string());
    assert_eq!(show(s.step(line("  \n"), NOW)), vec!["send:Enter your username:\n"]);
    assert_eq!(show(s.step(line("cy\n"), NOW)), vec!["bcast:[12:34:56] cy joined the chat\n"]);
    assert!(show(s.step(ChatEvent::Received { sender: 7, text: "echo".to_string() }, NOW)).is_empty());
    assert_eq!(show(s.step(ChatEvent::Received { sender: 8, text: "other".to_string() }, NOW)), vec!["send:other"]);
    assert!(show(s.step(ChatEvent::Lagged, NOW)).is_empty());
    assert_eq!(show(s.step(line(" padded \r\n"), NOW)), vec!["bcast:[12:34:56] cy:  padded \n"]);
    assert!(show(s.step(line("/quit \n"), NOW)).len() == 1);
    assert_eq!(
        show(s.step(ChatEvent::Closed, NOW)),
        vec!["bcast:[12:34:56] cy left the chat\n", "close"]
    );
}

#[test]
fn address_named_session_uses_the_address() {
    let (mut s, _) = ChatSession::start(ChatRules::address_named(), 3, "10.0.0.1:99".to_string());
    assert_eq!(show(s.step(line("\n"), NOW)), vec!["bcast:[12:34:56] 10.0.0.1:99 joined the chat\n"]);
    assert_eq!(show(s.step(line("  hey  \n"), NOW)), vec!["bcast:[12:34:56] 10.0.0.1:99:   hey\n"]);
    assert_eq!(
        show(s.step(ChatEvent::WriteFailed, NOW)),
        vec!["bcast:[12:34:56] 10.0.0.1:99 left the chat\n", "close"]
    );
    let (mut s, _) = ChatSession::start(ChatRules::address_named(), 3, "h".to_string());
    assert_eq!(show(s.step(ChatEvent::Eof, NOW)), vec!["close"]);
}

#[test]
fn permissive_session_relays_empty_lines() {
    let (mut s, a) = ChatSession::start(ChatRules::permissive(), 1, "h".to_string());
    assert_eq!(show(a), vec!["send:Enter your username: "]);
    assert_eq!(show(s.step(line("\n"), NOW)), vec!["bcast:[12:34:56]  joined the chat\n"]);
    assert_eq!(show(s.step(line("\n"), NOW)), vec!["bcast:[12:34:56] : \n"]);
    assert_eq!(show(s.step(ChatEvent::Lagged, NOW)), vec!["bcast:[12:34:56]  left the chat\n", "close"]);
}

#[test]
fn strict_names_session_refuses_empty_name() {
    let (mut s, _) = ChatSession::start(ChatRules::strict_names(), 1, "h".to_string());
    assert_eq!(show(s.step(ChatEvent::Eof, NOW)), vec!["send:Username cannot be empty\n", "close"]);
    let (mut s, _) = ChatSession::start(ChatRules::strict_names(), 1, "h".to_string());
    s.step(line("dee\n"), NOW);
    assert_eq!(show(s.step(ChatEvent::ReadFailed, NOW)), vec!["bcast:[12:34:56] dee left the chat\n", "close"]);
    let (mut s, _) = ChatSession::start(ChatRules::strict_names(), 1, "h".to_string());
    s.step(line("dee\n"), NOW);
    assert_eq!(show(s.step(ChatEvent::Closed, NOW)), vec!["close"]);
}

#[test]
fn sender_filtered_session() {
    let (mut s, _) = ChatSession::start(ChatRules::sender_filtered(), 4, "h".to_string());
    assert_eq!(show(s.step(ChatEvent::WriteFailed, NOW)), vec!["close"]);
    let (mut s, _) = ChatSession::start(ChatRules::sender_filtered(), 4, "h".to_string());
    s.step(line("em\n"), NOW);
    assert_eq!(show(s.step(line("\n"), NOW)), vec!["bcast:[12:34:56] em: \n"]);
    assert!(show(s.step(ChatEvent::Received { sender: 4, text: "x".to_string() }, NOW)).is_empty());
    assert_eq!(show(s.step(line("/quit\r\n"), NOW)), vec!["bcast:[12:34:56] em left the chat\n", "close"]);
}

#[test]
fn anonymous_session_relays_raw_lines() {
    let (mut s, a) = ChatSession::start(ChatRules::anonymous(), 9, "1.2.3.4:5".to_string());
    assert!(a.is_empty());
    assert!(s.phase() == Phase::Chatting);
    assert_eq!(
        show(s.step(line("/quit\n"), NOW)),
        vec!["bcast:[12:34:56] user name 1.2.3.4:5:  message:/quit\n"]
    );
    assert_eq!(show(s.step(ChatEvent::Eof, NOW)), vec!["close"]);
    assert_eq!(s.id(), 9);
}

#[test]
fn sessions_only_move_forward() {
    let (mut s, _) = ChatSession::start(ChatRules::reprompting(), 2, "h".to_string());
    let rank = |p: Phase| match p {
        Phase::Naming => 0,
        Phase::Chatting => 1,
        Phase::Ended => 2,
    };
    let mut last = rank(s.phase());
    let events = vec![
        line("\n"),
        ChatEvent::Received { sender: 3, text: "early".to_string() },
        line("zed\n"),
        line("hello\n"),
        ChatEvent::Lagged,
        ChatEvent::Eof,
        line("after\n"),
    ];
    for e in events {
        let acts = show(s.step(e, NOW));
        let now_rank = rank(s.phase());
        assert!(now_rank >= last);
        assert_eq!(now_rank == 2 && last != 2, acts.last().map(|a| a == "close").unwrap_or(false));
        for a in &acts {
            if let Some(t) = a.strip_prefix("bcast:") {
                assert!(t.starts_with("[12:34:56] "));
            }
        }
        last = now_rank;
    }
    assert_eq!(s.id(), 2);
}

#[test]
fn messages_from_other_sessions_are_delivered() {
    let (mut s, _) = ChatSession::start(ChatRules::sender_filtered(), 4, "h".to_string());
    s.step(line("em\n"), NOW);
    assert_eq!(
        show(s.step(ChatEvent::Received { sender: 5, text: "hi from five".to_string() }, NOW)),
        vec!["send:hi from five"]
    );
    assert!(show(s.step(ChatEvent::Received { sender: 4, text: "mine".to_string() }, NOW)).is_empty());
    assert!(s.phase() == Phase::Chatting);
}
