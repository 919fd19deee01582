//! What the user sees.

use chat_core::clock::SECOND;
use chat_core::error::Error;
use chat_core::events::{Event, PeerState};
use chat_core::mesh::DEFAULT_CODE_TTL;
use chat_core::screen::{
    suggested_name, MessageRow, Page, Screen, MAX_EVENTS_PER_TICK, MAX_VISIBLE_MESSAGES,
};
use chat_core::transport::TransportKind;

fn show(s: &mut Screen, ev: Event) -> bool {
    s.show(ev, "12:34:56", "AA:BB", 0)
}

fn opened(s: &mut Screen) {
    show(
        s,
        Event::RoomOpened {
            code: "L-ABCDE-FGHIJ".to_string(),
            transport: "LAN".to_string(),
            dial: "10.0.0.7:5".to_string(),
            expires_secs: 600,
        },
    );
}

fn bad() -> Error {
    Error::Protocol("nope".to_string())
}

#[test]
fn it_starts_on_the_setup_page() {
    let s = Screen::new();
    assert!(matches!(s.page, Page::Setup));
    assert_eq!(s.status_line, "Pick a connection mode, then host or join a room.");
    assert!(s.messages.is_empty() && s.peers.is_empty() && s.error_line.is_empty());
}

#[test]
fn an_opened_room_shows_its_code() {
    let mut s = Screen::new();
    opened(&mut s);
    assert!(matches!(s.page, Page::Room));
    assert!(s.is_host && !s.busy);
    assert_eq!(s.room_code, "L-ABCDE-FGHIJ");
    assert_eq!(s.room_addr, "10.0.0.7:5");
    assert_eq!(s.transport_label, "LAN");
    assert_eq!(s.my_fingerprint, "AA:BB");
    assert_eq!(
        s.status_line,
        "Room open. Share the code; every joiner needs your approval."
    );
    assert_eq!(s.expires_at, Some(600 * SECOND));
}

#[test]
fn the_countdown_is_in_minutes_then_seconds() {
    let mut s = Screen::new();
    opened(&mut s);
    let mut at = |now: u64| {
        s.update_expiry(now);
        s.expiry_note.clone()
    };
    assert_eq!(at(0), "Code accepts joiners for another 10 min");
    assert_eq!(at(SECOND), "Code accepts joiners for another 10 min");
    assert_eq!(at(539 * SECOND), "Code accepts joiners for another 2 min");
    assert_eq!(at(540 * SECOND), "Code accepts joiners for another 1 min");
    assert_eq!(at(541 * SECOND), "Code accepts joiners for another 59s");
    assert_eq!(at(599 * SECOND), "Code accepts joiners for another 1s");
    let gone = "Code expired - new joiners are refused. Press Reopen to accept more.";
    assert_eq!(at(599 * SECOND + 1), gone);
    assert_eq!(at(9_000 * SECOND), gone);
    s.reopened(Ok(()), 1_000 * SECOND);
    s.update_expiry(1_000 * SECOND);
    assert_eq!(s.expiry_note, "Code accepts joiners for another 10 min");
    assert_eq!(s.expires_at, Some(1_000 * SECOND + DEFAULT_CODE_TTL));
    s.reopened(Err(bad()), 1_000 * SECOND);
    assert_eq!(s.error_line, "protocol error: nope");
}

#[test]
fn joining_and_requests_are_shown() {
    let mut s = Screen::new();
    let joined =
        Event::Joined { room: "L-X".to_string(), transport: "LAN".to_string() };
    assert!(!show(&mut s, joined));
    assert!(!s.is_host);
    assert_eq!(s.status_line, "Approved - you are in the room.");
    show(
        &mut s,
        Event::JoinRequest {
            req: "1".to_string(),
            name: "Ann".to_string(),
            addr: "10.0.0.9".to_string(),
            fingerprint: "CC".to_string(),
        },
    );
    assert_eq!(s.requests.len(), 1);
    assert_eq!(s.status_line, "Ann wants to join - accept or decline below.");
    show(&mut s, Event::JoinResolved { req: "2".to_string(), accepted: false });
    assert_eq!(s.requests.len(), 1);
    assert_eq!(s.status_line, "Joiner declined.");
    show(&mut s, Event::JoinResolved { req: "1".to_string(), accepted: true });
    assert!(s.requests.is_empty());
    assert_eq!(s.status_line, "Joiner accepted.");
}

#[test]
fn a_peer_has_one_row() {
    let mut s = Screen::new();
    let mut peer = |state: PeerState, detail: &str| {
        show(
            &mut s,
            Event::Peer {
                id: "a".to_string(),
                name: "Ann".to_string(),
                state,
                detail: detail.to_string(),
            },
        );
        (s.peers.len(), s.peers[0].status.clone(), s.error_line.clone())
    };
    assert_eq!(peer(PeerState::Connecting, ""), (1, "Connecting".to_string(), String::new()));
    assert_eq!(peer(PeerState::Connected, "x"), (1, "Connected".to_string(), String::new()));
    assert_eq!(
        peer(PeerState::Disconnected, "gone"),
        (1, "Disconnected".to_string(), String::new())
    );
    assert_eq!(
        peer(PeerState::Failed, "no route"),
        (1, "Failed".to_string(), "Ann: no route".to_string())
    );
}

#[test]
fn chat_lines_and_notes_scroll() {
    let mut s = Screen::new();
    let chat = Event::Chat {
        from: "a".to_string(),
        name: "Ann".to_string(),
        ts: 0,
        body: "hi".to_string(),
        mine: false,
    };
    assert!(show(&mut s, chat));
    assert!(show(&mut s, Event::System("note".to_string())));
    assert!(!show(&mut s, Event::Status("busy".to_string())));
    assert!(!show(&mut s, Event::Error("bad".to_string())));
    assert_eq!(s.messages.len(), 2);
    assert_eq!((s.messages[0].who.as_str(), s.messages[0].body.as_str()), ("Ann", "hi"));
    assert_eq!(s.messages[0].time, "12:34:56");
    assert!(s.messages[1].system && !s.messages[0].system);
    assert_eq!(s.status_line, "busy");
    assert_eq!(s.error_line, "bad");
    s.scroll_tick = u32::MAX;
    s.scroll();
    assert_eq!(s.scroll_tick, 0);
}

#[test]
fn a_chat_line_has_the_time_it_was_sent() {
    let mut s = Screen::new();
    let chat = Event::Chat {
        from: "a".to_string(),
        name: "Ann".to_string(),
        ts: 86_399,
        body: "hi".to_string(),
        mine: true,
    };
    assert!(s.handle_event(chat, "", 0));
    assert_eq!(s.messages[0].time, chat_core::protocol::fmt_clock(86_399));
}

#[test]
fn a_tick_shows_so_many_events_and_no_more() {
    let mut s = Screen::new();
    let mut waiting: Vec<Event> =
        (0..MAX_EVENTS_PER_TICK + 2).map(|i| Event::System(format!("{i}"))).collect();
    s.pump(&mut waiting, "", 0);
    assert_eq!(s.messages.len(), 256);
    assert_eq!(s.messages[255].body, "255");
    assert_eq!(s.scroll_tick, 1);
    assert_eq!(waiting.len(), 2);
    s.pump(&mut waiting, "", 0);
    assert!(waiting.is_empty());
    assert_eq!(s.messages[257].body, "257");
    assert_eq!(s.scroll_tick, 2);
    s.pump(&mut waiting, "", 0);
    assert_eq!(s.scroll_tick, 2);
}

#[test]
fn a_tick_without_new_lines_does_not_scroll() {
    let mut s = Screen::new();
    let mut waiting = vec![
        Event::Status("busy".to_string()),
        Event::RoomOpened {
            code: "L-ABCDE-FGHIJ".to_string(),
            transport: "LAN".to_string(),
            dial: "10.0.0.7:5".to_string(),
            expires_secs: 30,
        },
    ];
    s.pump(&mut waiting, "", 0);
    let lines = s.messages.len();
    assert_eq!(s.scroll_tick, if lines == 0 { 0 } else { 1 });
    assert_eq!(s.expiry_note, "Code accepts joiners for another 30s");
    s.pump(&mut waiting, "", 10 * SECOND);
    assert_eq!(s.expiry_note, "Code accepts joiners for another 20s");
    let mut quiet = vec![Event::Status("calm".to_string())];
    let ticks = s.scroll_tick;
    s.pump(&mut quiet, "", 10 * SECOND);
    assert_eq!((s.status_line.as_str(), s.scroll_tick), ("calm", ticks));
}

#[test]
fn the_list_is_capped() {
    let mut s = Screen::new();
    for i in 0..MAX_VISIBLE_MESSAGES + 3 {
        s.push_message(MessageRow {
            who: String::new(),
            time: String::new(),
            body: format!("{i}"),
            mine: false,
            system: false,
        });
    }
    assert_eq!(s.messages.len(), MAX_VISIBLE_MESSAGES);
    assert_eq!(s.messages[0].body, "3");
    assert_eq!(s.messages.last().unwrap().body, format!("{}", MAX_VISIBLE_MESSAGES + 2));
}

#[test]
fn transfers_have_one_row_each() {
    let mut s = Screen::new();
    let progress = |done: u64| Event::FileProgress {
        transfer: "t".to_string(),
        name: "x.bin".to_string(),
        peer: "Ann".to_string(),
        done,
        total: 2048,
        incoming: true,
    };
    assert!(!show(&mut s, progress(512)));
    show(&mut s, progress(1024));
    assert_eq!(s.transfers.len(), 1);
    assert_eq!(s.transfers[0].label, "x.bin from Ann");
    assert_eq!(s.transfers[0].state, "1.0 KB / 2.0 KB");
    assert_eq!((s.transfers[0].done, s.transfers[0].total), (1024, 2048));
    let end = |ok: bool, detail: &str| Event::FileFinished {
        transfer: "t".to_string(),
        name: "x.bin".to_string(),
        incoming: true,
        ok,
        detail: detail.to_string(),
    };
    assert!(show(&mut s, end(true, "saved to y")));
    assert_eq!(s.transfers.len(), 1);
    assert_eq!(s.transfers[0].label, "x.bin (received)");
    assert_eq!(s.transfers[0].state, "saved to y");
    assert_eq!(s.transfers[0].done, s.transfers[0].total);
    assert_eq!(s.messages[0].body, "File received: x.bin. saved to y");
    show(&mut s, end(false, ""));
    assert_eq!(s.transfers[0].state, "Failed");
    assert_eq!(s.transfers[0].done, 0);
    assert_eq!(s.messages[1].body, "File transfer failed: x.bin. ");
}

#[test]
fn offers_wait_their_turn() {
    let mut s = Screen::new();
    assert_eq!(s.show_next_offer(), (String::new(), String::new()));
    for (t, n) in [("1", "report (final).pdf"), ("2", "b.txt")] {
        show(
            &mut s,
            Event::FileOffer {
                transfer: t.to_string(),
                from: "Ann".to_string(),
                name: n.to_string(),
                size: 1536,
            },
        );
    }
    assert_eq!(
        s.show_next_offer(),
        ("1".to_string(), "report (final).pdf (1.5 KB)".to_string())
    );
    assert_eq!(s.name_for("1"), "report (final).pdf");
    assert_eq!(s.name_for("2"), "b.txt");
    assert_eq!(s.name_for("3"), "received-file");
    s.offer_answered("1");
    assert_eq!(s.show_next_offer().0, "2");
    s.offer_answered("2");
    assert_eq!(s.show_next_offer(), (String::new(), String::new()));
    assert_eq!(suggested_name("no size"), "no size");
    assert_eq!(suggested_name("a (b) (1 B)"), "a (b)");
    assert_eq!(suggested_name("é (1 B)"), "é");
}

#[test]
fn a_closed_room_keeps_its_lines() {
    let mut s = Screen::new();
    opened(&mut s);
    show(&mut s, Event::System("before".to_string()));
    s.upsert_peer("a", "Ann", "connected", "");
    assert!(show(&mut s, Event::RoomClosed("the host left".to_string())));
    assert!(s.peers.is_empty() && s.requests.is_empty());
    assert_eq!(s.expires_at, None);
    assert_eq!(s.messages.len(), 2);
    assert_eq!(s.messages[1].body, "Room closed: the host left");
    assert_eq!(s.status_line, "the host left");
    s.left();
    assert!(matches!(s.page, Page::Setup));
    assert!(s.messages.is_empty() && s.room_code.is_empty());
    assert_eq!(s.status_line, "You left the room.");
}

#[test]
fn starting_needs_a_mode_a_code_and_a_name() {
    let mut s = Screen::new();
    assert!(s.check_start("", "Ann", None).is_none());
    assert_eq!(s.error_line, "Choose LAN or Bluetooth first.");
    assert!(s.check_start("LAN", "Ann", Some("  ")).is_none());
    assert_eq!(s.error_line, "Enter the room code the host gave you.");
    assert!(s.check_start("LAN", " \t", None).is_none());
    assert_eq!(s.error_line, "Enter a display name first.");
    let (kind, name) = s.check_start("bt", "  Ann ", Some("B-1")).unwrap();
    assert_eq!(kind, TransportKind::Bluetooth);
    assert_eq!(name, "Ann");
    s.started("AA", true);
    assert!(s.busy);
    assert_eq!(s.status_line, "Contacting the host...");
    assert!(s.error_line.is_empty());
    s.start_failed("no such host");
    assert!(!s.busy);
    assert_eq!(s.status_line, "Not connected.");
    assert_eq!(s.error_line, "no such host");
    s.started("AA", false);
    assert_eq!(s.status_line, "Opening the room...");
}

#[test]
fn what_the_user_asks_for_is_answered() {
    let mut s = Screen::new();
    s.draft = "  ".to_string();
    assert!(s.message_to_send().is_none());
    s.draft = " hello ".to_string();
    assert_eq!(s.message_to_send().as_deref(), Some("hello"));
    s.message_sent(Err(bad()));
    assert_eq!(s.draft, " hello ");
    assert_eq!(s.error_line, "protocol error: nope");
    s.message_sent(Ok(()));
    assert!(s.draft.is_empty() && s.error_line.is_empty());
    s.asked(Err(bad()));
    assert_eq!(s.error_line, "protocol error: nope");
    s.asked(Ok(()));
    assert!(s.error_line.is_empty());
    s.exported("x.txt", Ok(()));
    assert_eq!(s.status_line, "Transcript saved to x.txt");
    s.exported("x.txt", Err(bad()));
    assert_eq!(s.error_line, "protocol error: nope");
    s.copied(Ok(()));
    assert_eq!(s.status_line, "Room code copied to clipboard.");
    s.copied(Err("locked".to_string()));
    assert_eq!(s.error_line, "Could not use the clipboard: locked");
    s.note("done");
    assert_eq!(s.status_line, "done");
}
