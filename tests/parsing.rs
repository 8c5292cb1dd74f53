use mc_sync::event::Event;

const JOIN_LINE: &str =
    "[10:00:00] [Server thread/INFO]: Alice[/1.2.3.4] logged in with entity id 5 at (0,0,0)";

#[test]
fn join_line_parses_to_join() {
    assert_eq!(Event::parse(JOIN_LINE), Some(Event::Join("Alice".to_string())));
}

#[test]
fn join_line_with_port_in_address() {
    let line = "[10:00:00] [Server thread/INFO]: Bob_2[/10.0.0.7:51234] logged in with entity id 118 at (12.5, 64.0, -3.5)";
    assert_eq!(Event::parse(line), Some(Event::Join("Bob_2".to_string())));
}

#[test]
fn quit_line_parses_to_quit() {
    let line = "[10:05:00] [Server thread/INFO]: Alice left the game";
    assert_eq!(Event::parse(line), Some(Event::Quit("Alice".to_string())));
}

#[test]
fn advancement_line_parses() {
    let line = "[10:06:00] [Server thread/INFO]: Alice has made the advancement [Stone Age]";
    assert_eq!(
        Event::parse(line),
        Some(Event::Achieve("Alice".to_string(), "Stone Age".to_string()))
    );
}

#[test]
fn advancement_text_runs_to_the_last_bracket() {
    let line = "[10:06:00] [Server thread/INFO]: Bob has made the advancement [A] [B] tail";
    assert_eq!(
        Event::parse(line),
        Some(Event::Achieve("Bob".to_string(), "A] [B".to_string()))
    );
}

#[test]
fn chat_line_parses_to_message() {
    let line = "[10:07:00] [Server thread/INFO]: <Alice> hello there";
    assert_eq!(
        Event::parse(line),
        Some(Event::Message("Alice".to_string(), "hello there".to_string()))
    );
}

#[test]
fn chat_name_stops_before_a_space() {
    let line = "[10:07:00] [Server thread/INFO]: <a> b> c";
    assert_eq!(
        Event::parse(line),
        Some(Event::Message("a".to_string(), "b> c".to_string()))
    );
}

#[test]
fn chat_name_with_space_is_not_a_message() {
    let line = "[10:07:00] [Server thread/INFO]: <Al ice> hi";
    assert_eq!(Event::parse(line), None);
}

#[test]
fn quit_pattern_wins_over_chat_pattern() {
    let line = "[10:07:00] [Server thread/INFO]: <Alice> Bob left the game";
    assert_eq!(Event::parse(line), Some(Event::Quit("<Alice> Bob".to_string())));
}

#[test]
fn last_header_is_taken() {
    let line = "[1] [Server thread/INFO]: x [Server thread/INFO]: Carol left the game";
    assert_eq!(Event::parse(line), Some(Event::Quit("Carol".to_string())));
}

#[test]
fn unrelated_lines_give_nothing() {
    assert_eq!(Event::parse(""), None);
    assert_eq!(Event::parse("[10:00:00] [Server thread/INFO]: Done (3.2s)! For help, type \"help\""), None);
    assert_eq!(Event::parse("[10:00:00] [Server thread/WARN]: Alice left the game"), None);
}

#[test]
fn announcements_read_as_sentences() {
    assert_eq!(Event::Join("Alice".to_string()).announce(), "Alice has joined the server!");
    assert_eq!(Event::Quit("Alice".to_string()).announce(), "Alice has left the server.");
    assert_eq!(
        Event::Achieve("Alice".to_string(), "Stone Age".to_string()).announce(),
        "Alice unlocked achievement [Stone Age]!"
    );
    assert_eq!(
        Event::Message("Alice".to_string(), "hi".to_string()).announce(),
        "[Alice]: hi"
    );
}
