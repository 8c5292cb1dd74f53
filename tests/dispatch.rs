use mc_sync::dispatch::{Dispatcher, Input, Output};

const JOIN: &str =
    "[10:00:00] [Server thread/INFO]: Alice[/1.2.3.4] logged in with entity id 5 at (0,0,0)";
const QUIT: &str = "[10:05:00] [Server thread/INFO]: Alice left the game";

fn chat(author: &str, body: &str) -> Input {
    Input::Chat { author: author.to_string(), body: body.to_string() }
}

#[test]
fn join_line_updates_registry_and_announces() {
    let mut d = Dispatcher::new();
    let out = d.handle(Input::ServerLine(JOIN.to_string()));
    assert_eq!(
        out,
        vec![
            Output::Echo(JOIN.to_string()),
            Output::ToVerbose(JOIN.to_string()),
            Output::ToGeneral("Alice has joined the server!".to_string()),
        ]
    );
    assert_eq!(d.registry().online().clone(), vec!["Alice".to_string()]);
}

#[test]
fn quit_after_join_empties_registry() {
    let mut d = Dispatcher::new();
    d.handle(Input::ServerLine(JOIN.to_string()));
    let out = d.handle(Input::ServerLine(QUIT.to_string()));
    assert_eq!(out[2], Output::ToGeneral("Alice has left the server.".to_string()));
    assert!(d.registry().online().is_empty());
}

#[test]
fn unmatched_line_is_only_relayed_raw() {
    let mut d = Dispatcher::new();
    let line = "[10:00:00] [Server thread/INFO]: Preparing spawn area: 83%";
    let out = d.handle(Input::ServerLine(line.to_string()));
    assert_eq!(out, vec![Output::Echo(line.to_string()), Output::ToVerbose(line.to_string())]);
}

#[test]
fn online_query_with_nobody() {
    let mut d = Dispatcher::new();
    let out = d.handle(chat("Steve", "!online"));
    assert_eq!(out, vec![Output::Reply("Nobody is online.".to_string())]);
}

#[test]
fn online_query_lists_two_players() {
    let mut d = Dispatcher::new();
    d.handle(Input::ServerLine(JOIN.to_string()));
    d.handle(Input::ServerLine(
        "[10:01:00] [Server thread/INFO]: Bob[/5.6.7.8] logged in with entity id 9 at (1,2,3)".to_string(),
    ));
    let out = d.handle(chat("Steve", "!online"));
    assert_eq!(out.len(), 1);
    match &out[0] {
        Output::Reply(text) => {
            assert!(text.starts_with("2 online: "));
            assert_eq!(text.matches("Alice").count(), 1);
            assert_eq!(text.matches("Bob").count(), 1);
        }
        other => panic!("unexpected output {:?}", other),
    }
}

#[test]
fn online_query_is_trimmed() {
    let mut d = Dispatcher::new();
    let out = d.handle(chat("Steve", "  !online \n"));
    assert_eq!(out, vec![Output::Reply("Nobody is online.".to_string())]);
}

#[test]
fn chat_is_said_in_game() {
    let mut d = Dispatcher::new();
    let out = d.handle(chat("Steve", "hello all"));
    assert_eq!(out, vec![Output::ToServer("/say [Steve]: hello all".to_string())]);
    let out = d.handle(chat("Steve", "  spaced  "));
    assert_eq!(out, vec![Output::ToServer("/say [Steve]:   spaced  ".to_string())]);
}

#[test]
fn bridge_messages_are_ignored() {
    let mut d = Dispatcher::new();
    assert!(d.handle(chat("mc-sync", "Alice has joined the server!")).is_empty());
    assert!(d.handle(chat("mc-boot", "!online")).is_empty());
}

#[test]
fn chat_decision_from_trimmed_text() {
    let d = Dispatcher::new();
    assert_eq!(d.chat("Steve", " !online", "!online"), vec![Output::Reply("Nobody is online.".to_string())]);
    assert_eq!(
        d.chat("Steve", "!online?", "!online?"),
        vec![Output::ToServer("/say [Steve]: !online?".to_string())]
    );
}

#[test]
fn console_line_is_forwarded() {
    let mut d = Dispatcher::new();
    let out = d.handle(Input::ConsoleLine("time set day".to_string()));
    assert_eq!(out, vec![Output::ToServer("time set day".to_string())]);
    assert!(!d.is_stopped());
}

#[test]
fn shutdown_sends_one_stop_and_ends() {
    let mut d = Dispatcher::new();
    let out = d.handle(Input::Shutdown);
    assert_eq!(out, vec![Output::ToServer("/stop".to_string()), Output::Exit]);
    assert!(d.is_stopped());
    assert!(d.handle(Input::Shutdown).is_empty());
    assert!(d.handle(chat("Steve", "hi")).is_empty());
    assert!(d.handle(Input::ServerLine(JOIN.to_string())).is_empty());
    assert!(d.registry().online().is_empty());
}

#[test]
fn console_stop_ends_the_loop() {
    let mut d = Dispatcher::new();
    let out = d.handle(Input::ConsoleLine("/stop".to_string()));
    assert_eq!(out, vec![Output::ToServer("/stop".to_string()), Output::Exit]);
    assert!(d.handle(Input::Shutdown).is_empty());
}
