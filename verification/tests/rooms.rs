//! Whole rooms: nodes wired to one another in memory, every step driven
//! through the engine's public interface.

use std::collections::{BTreeMap, VecDeque};

use chat_core::clock::{MILLISECOND, SECOND};
use chat_core::error::{Error, IoError, IoErrorKind};
use chat_core::events::{delivery_failed, Action, Decision, Event, Inbound, PeerState};
use chat_core::files::{UploadEnd, Verdict};
use chat_core::hashing::FileHasher;
use chat_core::mesh::{
    describe_disconnect, hold_until, malformed_message, Answer, Approval, Dial, DialStep, First, Held, Moment,
    Node, ROSTER_GRACE,
};
use chat_core::protocol::{decode, Control, Frame, PeerInfo, CHUNK_SIZE};
use chat_core::roomcode;
use chat_core::sending::{Course, Happened, Work};
use chat_core::transport::{lan, TransportKind};

const TS: i64 = 1_700_000_000;

enum Packet {
    Message(Control),
    Payload(Vec<u8>),
}

enum End {
    First { source: String },
    Held { peer: PeerInfo, deadline: u64 },
    Pending,
    Welcome,
    Ack { dial: Dial },
    Reading { peer: PeerInfo },
    Over,
}

struct Wire {
    seats: [usize; 2],
    ends: [End; 2],
    inbox: [VecDeque<Packet>; 2],
    open: bool,
}

struct Sending {
    course: Course,
    data: Vec<u8>,
    read: usize,
}

struct Seat {
    node: Node,
    addr: String,
    listening: bool,
    events: Vec<Event>,
    dials: Vec<Option<Dial>>,
    writing: BTreeMap<[u8; 16], Vec<u8>>,
    saved: Vec<Vec<u8>>,
    sending: Vec<Sending>,
    cuts: usize,
}

/// Everyone, and the wires between them.
struct World {
    now: u64,
    seats: Vec<Seat>,
    wires: Vec<Wire>,
}

impl World {
    fn new() -> World {
        World { now: 0, seats: Vec::new(), wires: Vec::new() }
    }

    fn moment(&self) -> Moment {
        Moment { now: self.now, ts: TS }
    }

    fn node(&mut self, name: &str) -> usize {
        let n = self.seats.len();
        self.seats.push(Seat {
            node: Node::new(name).ok().expect("node"),
            addr: lan::listen_address("127.0.0.1", 40_000 + n as u16),
            listening: false,
            events: Vec::new(),
            dials: Vec::new(),
            writing: BTreeMap::new(),
            saved: Vec::new(),
            sending: Vec::new(),
            cuts: CHUNK_SIZE,
        });
        n
    }

    fn side(&self, link: u64, seat: usize) -> usize {
        if self.wires[link as usize].seats[0] == seat {
            0
        } else {
            1
        }
    }

    fn post(&mut self, seat: usize, link: u64, p: Packet) -> Result<(), Error> {
        let side = self.side(link, seat);
        let wire = &mut self.wires[link as usize];
        if !wire.open {
            return Err(Error::Io(IoError::new(IoErrorKind::Other, "broken pipe")));
        }
        wire.inbox[1 - side].push_back(p);
        Ok(())
    }

    fn perform(&mut self, seat: usize, actions: Vec<Action>) {
        for a in actions {
            match a {
                Action::Emit(e) => self.seats[seat].events.push(e),
                Action::Send { link, message } => {
                    let _ = self.post(seat, link, Packet::Message(message));
                }
                Action::Tell { link, message, trouble } => {
                    if let Err(e) = self.post(seat, link, Packet::Message(message)) {
                        let ev = delivery_failed(&trouble, &e);
                        self.seats[seat].events.push(ev);
                    }
                }
                Action::Close { link } => {
                    let side = self.side(link, seat);
                    let wire = &mut self.wires[link as usize];
                    wire.open = false;
                    wire.ends[side] = End::Over;
                }
                Action::CloseListener => self.seats[seat].listening = false,
                Action::Read { link, peer } => {
                    let side = self.side(link, seat);
                    self.wires[link as usize].ends[side] = End::Reading { peer };
                }
                Action::Dial { peer } => {
                    if let Some((d, e)) = self.seats[seat].node.dial_peer(&peer) {
                        self.seats[seat].events.push(e);
                        self.seats[seat].dials.push(Some(d));
                    }
                }
                Action::Decide { transfer, decision } => self.decided(seat, transfer, decision),
                Action::CloseFile { transfer } => {
                    if let Some(data) = self.seats[seat].writing.remove(&transfer) {
                        self.seats[seat].saved.push(data);
                    }
                }
            }
        }
    }

    /// A connection from `from` to whoever listens at `addr`; the link.
    fn connect(&mut self, from: usize, addr: &str) -> Result<u64, Error> {
        lan::check_address(addr)?;
        let to = self.seats.iter().position(|s| s.listening && s.addr == addr);
        let to = match to {
            Some(t) => t,
            None => return Err(lan::unreachable_host(addr, "connection refused")),
        };
        let link = self.wires.len() as u64;
        self.wires.push(Wire {
            seats: [from, to],
            ends: [End::Over, End::Over],
            inbox: [VecDeque::new(), VecDeque::new()],
            open: true,
        });
        let label = format!("10.0.0.{}:5{}", from + 1, link);
        let now = self.now;
        let (source, actions) = self.seats[to].node.handle_incoming(&label, link, now);
        match source {
            Some(source) => self.wires[link as usize].ends[1] = End::First { source },
            None => self.perform(to, actions),
        }
        Ok(link)
    }

    fn host(&mut self, who: usize, ttl: u64) -> Result<String, Error> {
        let at = self.moment();
        let addr = self.seats[who].addr.clone();
        let (code, actions) = self.seats[who].node.host(TransportKind::Lan, &addr, ttl, at)?;
        self.seats[who].listening = true;
        self.perform(who, actions);
        Ok(code)
    }

    fn join(&mut self, who: usize, code: &str) -> Result<(), Error> {
        let target = self.seats[who].node.join_target(TransportKind::Lan, code)?;
        let addr = self.seats[who].addr.clone();
        let (actions, hello) = self.seats[who].node.join(TransportKind::Lan, code, &addr)?;
        self.seats[who].listening = true;
        self.perform(who, actions);
        match self.connect(who, &target) {
            Ok(link) => {
                self.wires[link as usize].ends[0] = End::Welcome;
                self.post(who, link, Packet::Message(hello))?;
                self.seats[who].events.push(Node::request_sent());
                self.settle();
                Ok(())
            }
            Err(e) => {
                let actions = self.seats[who].node.shutdown_internal();
                self.perform(who, actions);
                Err(e)
            }
        }
    }

    fn approve(&mut self, host: usize, req: &str, accept: bool) -> Result<(), Error> {
        match self.seats[host].node.approve(req, accept)? {
            Approval::Declined(actions) => self.perform(host, actions),
            Approval::Welcome { first, message, link, info } => {
                self.perform(host, first);
                self.post(host, link, Packet::Message(message))?;
                let actions = self.seats[host].node.welcomed(req, info, link, "AA:BB", TS);
                self.perform(host, actions);
            }
        }
        self.settle();
        Ok(())
    }

    fn say(&mut self, who: usize, text: &str) -> Result<(), Error> {
        let actions = self.seats[who].node.send_chat(text)?;
        self.perform(who, actions);
        self.settle();
        Ok(())
    }

    fn leave(&mut self, who: usize) {
        let actions = self.seats[who].node.leave();
        self.perform(who, actions);
        self.settle();
    }

    /// Let everything that is under way come to rest.
    fn settle(&mut self) {
        loop {
            let mut busy = false;
            for seat in 0..self.seats.len() {
                for d in 0..self.seats[seat].dials.len() {
                    busy = self.dial(seat, d) || busy;
                }
            }
            for link in 0..self.wires.len() {
                for side in 0..2 {
                    busy = self.deliver(link, side) || busy;
                }
            }
            if !busy {
                return;
            }
        }
    }

    fn dial(&mut self, seat: usize, d: usize) -> bool {
        let mut dial = match self.seats[seat].dials[d].take() {
            Some(dial) => dial,
            None => return false,
        };
        match dial.next(self.seats[seat].node.is_active()) {
            DialStep::Try => {
                let addr = dial.info.addr.clone();
                match self.connect(seat, &addr) {
                    Ok(link) => {
                        let hello = self.seats[seat].node.mesh_hello();
                        let _ = self.post(seat, link, Packet::Message(hello));
                        self.wires[link as usize].ends[0] = End::Ack { dial };
                    }
                    Err(e) => {
                        dial.failed(&e);
                        self.seats[seat].dials[d] = Some(dial);
                    }
                }
            }
            DialStep::Stop => {}
            DialStep::GiveUp(e) => self.seats[seat].events.push(e),
        }
        true
    }

    fn deliver(&mut self, link: usize, side: usize) -> bool {
        let seat = self.wires[link].seats[side];
        let id = link as u64;
        let (now, ts) = (self.now, TS);
        // A call that is held is looked at again, whatever else comes.
        if let End::Held { peer, deadline } = &self.wires[link].ends[side] {
            let (pid, deadline) = (peer.id.clone(), *deadline);
            return match self.seats[seat].node.check_held(&pid, id, now, deadline) {
                Held::Wait => false,
                Held::Refuse(actions) => {
                    self.perform(seat, actions);
                    true
                }
                Held::Welcome(ack) => {
                    let end = std::mem::replace(&mut self.wires[link].ends[side], End::Over);
                    if let End::Held { peer, .. } = end {
                        if self.post(seat, id, Packet::Message(ack)).is_ok() {
                            let actions = self.seats[seat].node.attach_peer(peer, id, "CC:DD", ts);
                            self.perform(seat, actions);
                        }
                    }
                    true
                }
            };
        }
        let packet = self.wires[link].inbox[side].pop_front();
        let inbound = match packet {
            Some(Packet::Message(c)) => Inbound::Message(c),
            Some(Packet::Payload(b)) => match decode(&b) {
                Ok(Frame::Chunk { id, seq, data }) => Inbound::Chunk { id, seq, data },
                Ok(Frame::Control(_)) => unreachable!(),
                Err(e) => Inbound::Malformed(e),
            },
            None => return self.broken(link, side),
        };
        let end = std::mem::replace(&mut self.wires[link].ends[side], End::Over);
        match end {
            End::First { source } => {
                match self.seats[seat].node.first_message(id, inbound, &source, "EE:FF", now) {
                    First::Done(actions) => {
                        self.wires[link].ends[side] = End::Pending;
                        self.perform(seat, actions);
                    }
                    First::Hold(peer) => {
                        let deadline = hold_until(now);
                        self.wires[link].ends[side] = End::Held { peer, deadline };
                    }
                }
            }
            End::Welcome => {
                let actions = self.seats[seat].node.await_welcome(id, inbound, "11:22", ts);
                self.perform(seat, actions);
            }
            End::Ack { mut dial } => {
                let (actions, tried) = self.seats[seat].node.try_dial(id, inbound, "33:44", ts);
                self.perform(seat, actions);
                if let Err(e) = tried {
                    dial.failed(&e);
                    self.seats[seat].dials.push(Some(dial));
                }
            }
            End::Reading { peer } => {
                let from = PeerInfo {
                    id: peer.id.clone(),
                    name: peer.name.clone(),
                    addr: peer.addr.clone(),
                    fingerprint: peer.fingerprint.clone(),
                };
                self.wires[link].ends[side] = End::Reading { peer };
                self.hear(seat, id, from, inbound);
            }
            other => self.wires[link].ends[side] = other,
        }
        true
    }

    /// The other side closed and everything it sent has been read.
    fn broken(&mut self, link: usize, side: usize) -> bool {
        if self.wires[link].open {
            return false;
        }
        let seat = self.wires[link].seats[side];
        let eof = Error::Io(IoError::new(
            IoErrorKind::UnexpectedEof,
            "the peer closed the connection",
        ));
        match std::mem::replace(&mut self.wires[link].ends[side], End::Over) {
            End::Reading { peer } => {
                let reason = describe_disconnect(&eof);
                let actions = self.seats[seat].node.peer_gone(&peer, link as u64, &reason, TS);
                self.perform(seat, actions);
                true
            }
            End::Welcome => {
                let actions = self.seats[seat].node.host_lost(&eof);
                self.perform(seat, actions);
                true
            }
            other => {
                self.wires[link].ends[side] = other;
                false
            }
        }
    }

    fn hear(&mut self, seat: usize, link: u64, from: PeerInfo, inbound: Inbound) {
        let actions = match inbound {
            Inbound::Message(c) => self.seats[seat].node.handle_control(&from, link, c, TS),
            Inbound::Malformed(e) => vec![Action::Emit(malformed_message(&from, &e))],
            Inbound::Chunk { id, seq, data } => {
                match self.seats[seat].node.handle_chunk(&from, &id, seq, data.len()) {
                    Verdict::Ignore => Vec::new(),
                    Verdict::Refuse(why) => self.seats[seat].node.refuse_chunk(link, id, &why),
                    Verdict::Write => {
                        let now = self.now;
                        let s = &mut self.seats[seat];
                        s.writing.get_mut(&id).unwrap().extend_from_slice(&data);
                        s.node.chunk_written(&from, &id, seq, &data, now)
                    }
                }
            }
        };
        self.perform(seat, actions);
    }

    // --- files ---

    fn send_file(&mut self, who: usize, name: &str, data: &[u8]) -> Result<(), Error> {
        let peers = self.seats[who].node.send_file()?;
        let (name, status) = Node::file_to_send(true, Some(name), data.len() as u64)?;
        self.seats[who].events.push(status);
        let mut h = FileHasher::new();
        h.update(data);
        let sha = h.finish();
        for p in peers {
            let up = self.seats[who].node.begin_upload(&p, &name, data.len() as u64, &sha);
            let (course, work) = Course::start(up);
            self.send_on(who, Sending { course, data: data.to_vec(), read: 0 }, work);
        }
        self.settle();
        Ok(())
    }

    /// Do the work of an outgoing transfer until it waits for the other side.
    fn send_on(&mut self, seat: usize, mut s: Sending, mut work: Work) {
        let link = s.course.up.link;
        let cut = self.seats[seat].cuts;
        loop {
            let news = match work {
                Work::Offer(m) => Happened::Sent(self.post(seat, link, Packet::Message(m))),
                Work::Await => {
                    self.seats[seat].sending.push(s);
                    return;
                }
                Work::Open => Happened::Opened(Ok(())),
                Work::Look => Happened::InRoom(self.seats[seat].node.is_active()),
                Work::Read => {
                    let end = s.data.len().min(s.read + cut);
                    let piece = s.data[s.read..end].to_vec();
                    s.read = end;
                    Happened::Read(Ok(piece))
                }
                Work::Pass(chunk) => Happened::Sent(self.post(seat, link, Packet::Payload(chunk))),
                Work::Finish(how) => {
                    let actions = self.seats[seat].node.finish_out(&s.course.up, how, TS);
                    self.perform(seat, actions);
                    return;
                }
                Work::Leave => return,
            };
            let (actions, next) = s.course.next(news, self.now);
            self.perform(seat, actions);
            work = next;
        }
    }

    fn decided(&mut self, seat: usize, transfer: [u8; 16], decision: Decision) {
        let found = self.seats[seat].sending.iter().position(|s| s.course.up.id == transfer);
        let mut s = match found {
            Some(i) => self.seats[seat].sending.remove(i),
            None => return,
        };
        let (actions, work) = s.course.next(Happened::Answered(Some(decision)), self.now);
        self.perform(seat, actions);
        self.send_on(seat, s, work);
    }

    fn respond(&mut self, who: usize, transfer: &str, path: Option<&str>) -> Result<(), Error> {
        match self.seats[who].node.respond_offer(transfer, path)? {
            Answer::Declined(actions) => self.perform(who, actions),
            Answer::Create(a) => {
                self.seats[who].writing.insert(a.id, Vec::new());
                let (link, message, said) = self.seats[who].node.begin_download(a);
                self.post(who, link, Packet::Message(message))?;
                self.seats[who].events.push(said);
            }
        }
        self.settle();
        Ok(())
    }

    // --- looking ---

    fn find<T>(&self, who: usize, f: impl Fn(&Event) -> Option<T>) -> Option<T> {
        self.seats[who].events.iter().rev().find_map(f)
    }

    fn join_request(&self, host: usize) -> String {
        self.find(host, |e| match e {
            Event::JoinRequest { req, .. } => Some(req.clone()),
            _ => None,
        })
        .expect("a join request should reach the host")
    }

    fn joined(&self, who: usize) -> bool {
        self.find(who, |e| match e {
            Event::Joined { .. } => Some(()),
            _ => None,
        })
        .is_some()
    }

    fn closed(&self, who: usize) -> Option<String> {
        self.find(who, |e| match e {
            Event::RoomClosed(r) => Some(r.clone()),
            _ => None,
        })
    }

    fn peer_count(&self, who: usize) -> usize {
        self.seats[who].node.connected_peers().len()
    }

    fn connected(&self, who: usize, name: &str) -> bool {
        self.find(who, |e| match e {
            Event::Peer { name: n, state: PeerState::Connected, .. } if n == name => Some(()),
            _ => None,
        })
        .is_some()
    }

    fn chat_from(&self, who: usize, body: &str) -> Option<String> {
        self.find(who, |e| match e {
            Event::Chat { body: b, name, mine: false, .. } if b == body => Some(name.clone()),
            _ => None,
        })
    }

    fn disconnected(&self, who: usize, name: &str) -> Option<String> {
        self.find(who, |e| match e {
            Event::Peer { name: n, state: PeerState::Disconnected, detail, .. } if n == name => {
                Some(detail.clone())
            }
            _ => None,
        })
    }

    fn open_room(&mut self, name: &str) -> (usize, String) {
        let host = self.node(name);
        let code = self
            .host(host, 120 * SECOND)
            .ok()
            .expect("host should be able to open a LAN room");
        (host, code)
    }

    fn join_approved(&mut self, name: &str, code: &str, host: usize) -> usize {
        let joiner = self.node(name);
        assert!(self.join(joiner, code).is_ok(), "join request should be sent");
        let req = self.join_request(host);
        assert!(self.approve(host, &req, true).is_ok(), "approve");
        assert!(self.joined(joiner), "joiner should be welcomed");
        joiner
    }
}

// --- approval flow ---

#[test]
fn joiner_stays_pending_until_the_host_accepts() {
    let mut w = World::new();
    let (host, code) = w.open_room("Host");
    let joiner = w.node("Joiner");
    assert!(w.join(joiner, &code).is_ok());

    let req = w.join_request(host);

    // Pending means pending: no link exists on either side yet.
    assert_eq!(w.peer_count(joiner), 0);
    assert_eq!(w.peer_count(host), 0);
    assert_eq!(w.seats[host].node.pending_requests().len(), 1);

    assert!(w.approve(host, &req, true).is_ok());

    assert!(w.joined(joiner), "joiner welcomed");
    assert!(w.connected(host, "Joiner"));
    assert_eq!(w.peer_count(host), 1);
    assert_eq!(w.peer_count(joiner), 1);
    assert!(w.seats[host].node.pending_requests().is_empty());
}

#[test]
fn declined_joiner_is_told_why_and_gets_no_link() {
    let mut w = World::new();
    let (host, code) = w.open_room("Host");
    let joiner = w.node("Rejected Randy");
    assert!(w.join(joiner, &code).is_ok());

    let req = w.join_request(host);
    assert!(w.approve(host, &req, false).is_ok());

    let reason = w.closed(joiner).expect("joiner should be told it was declined");
    assert!(reason.to_lowercase().contains("declined"), "{reason}");
    assert_eq!(w.peer_count(joiner), 0);
    assert_eq!(w.peer_count(host), 0);
}

#[test]
fn a_code_pointing_nowhere_fails_with_a_readable_reason() {
    // A structurally valid code for an address nobody is listening on.
    let mut w = World::new();
    let dead_port = 47_999;
    let code = roomcode::encode(TransportKind::Lan, &format!("127.0.0.1:{dead_port}")).unwrap();

    let joiner = w.node("Joiner");
    let err = w.join(joiner, &code).expect_err("a code pointing nowhere must not connect");
    let msg = err.message();
    assert!(msg.contains("could not reach"), "{msg}");
    assert!(
        !w.seats[joiner].node.is_active(),
        "a failed join must not leave the node in a room"
    );
    assert!(!w.seats[joiner].listening);
}

#[test]
fn a_malformed_code_is_rejected_before_any_socket_is_opened() {
    let mut w = World::new();
    let joiner = w.node("Joiner");
    for bad in ["", "hello", "Z-ABCDE-FGHIJ", "L-AB"] {
        assert!(w.join(joiner, bad).is_err(), "{bad:?} should be rejected");
    }
    assert!(!w.seats[joiner].listening);
}

#[test]
fn a_bluetooth_code_is_refused_in_lan_mode() {
    let bt = roomcode::encode(TransportKind::Bluetooth, "A4B1C2D3E4F5:25").unwrap();
    let mut w = World::new();
    let joiner = w.node("Joiner");
    let err = w.join(joiner, &bt).unwrap_err();
    assert!(err.message().contains("Bluetooth"), "{}", err.message());
    assert_eq!(
        err.message(),
        "that room code is a Bluetooth code - switch the connection mode to Bluetooth and try again"
    );
}

#[test]
fn the_code_expires_and_can_be_reopened() {
    let mut w = World::new();
    let host = w.node("Host");
    let code = w.host(host, 200 * MILLISECOND).unwrap();
    w.now += 400 * MILLISECOND;

    let late = w.node("Late Larry");
    assert!(w.join(late, &code).is_ok());
    let reason = w.closed(late).expect("late joiner should be refused");
    assert!(reason.contains("expired"), "{reason}");

    let at = w.moment();
    let actions = w.seats[host].node.reopen_joining(60 * SECOND, at).unwrap();
    w.perform(host, actions);
    let second = w.node("Second Try");
    assert!(w.join(second, &code).is_ok());
    let req = w.join_request(host);
    assert!(w.approve(host, &req, true).is_ok());
    assert!(w.joined(second), "joining works again after reopening");
}

#[test]
fn a_node_can_only_be_in_one_room_at_a_time() {
    let mut w = World::new();
    let (host, _code) = w.open_room("Host");
    assert!(w.host(host, 60 * SECOND).is_err());
    assert!(Node::new("x").is_ok());
}

#[test]
fn a_code_that_was_misheard_still_opens_its_room() {
    let mut w = World::new();
    let (host, code) = w.open_room("Host");
    let typed = format!("  {} ", code[1..].replace('0', "o").replace('1', "l").replace('-', " "));
    let typed = format!("l{typed}");
    assert!(typed.contains('o'), "{typed}");
    let joiner = w.node("Joiner");
    assert!(w.join(joiner, &typed).is_ok());
    let req = w.join_request(host);
    assert!(w.approve(host, &req, true).is_ok());
    assert!(w.joined(joiner));
    assert_eq!(w.seats[joiner].node.room(), code);
}

#[test]
fn a_wrong_version_and_a_wrong_room_are_told_apart() {
    let mut w = World::new();
    let (host, code) = w.open_room("Host");
    let me = w.seats[host].node.me();
    let peer = PeerInfo {
        id: "0011".to_string(),
        name: "Old".to_string(),
        addr: String::new(),
        fingerprint: String::new(),
    };
    let hello = Control::Hello { version: 7, room: code.clone(), peer };
    let first = w.seats[host].node.first_message(
        0,
        Inbound::Message(hello),
        "10.0.0.9",
        "AA",
        0,
    );
    let reasons = |f: First| match f {
        First::Done(actions) => match actions.into_iter().next() {
            Some(Action::Send { message: Control::Rejected { reason }, .. }) => reason,
            _ => String::new(),
        },
        First::Hold(_) => String::new(),
    };
    assert_eq!(reasons(first), "the host runs protocol v1, you run v7");

    let wrong = Control::Hello {
        version: 1,
        room: "L-00000-00000".to_string(),
        peer: PeerInfo {
            id: "0011".to_string(),
            name: "New".to_string(),
            addr: String::new(),
            fingerprint: String::new(),
        },
    };
    let first =
        w.seats[host].node.first_message(0, Inbound::Message(wrong), "10.0.0.9", "AA", 0);
    assert_eq!(reasons(first), "that room code does not match this room");

    let twin = Control::Hello {
        version: 1,
        room: code.to_lowercase(),
        peer: PeerInfo {
            id: me.id.clone(),
            name: "Twin".to_string(),
            addr: String::new(),
            fingerprint: String::new(),
        },
    };
    let first = w.seats[host].node.first_message(0, Inbound::Message(twin), "10.0.0.9", "AA", 0);
    assert_eq!(reasons(first), "a peer with that id is already in the room");

    let first =
        w.seats[host].node.first_message(0, Inbound::Message(Control::Bye), "10.0.0.9", "AA", 0);
    assert_eq!(reasons(first), "unexpected first message");

    let other = w.node("Other");
    let ask = Control::Hello {
        version: 1,
        room: code,
        peer: PeerInfo {
            id: "0012".to_string(),
            name: "Lost".to_string(),
            addr: String::new(),
            fingerprint: String::new(),
        },
    };
    let first = w.seats[other].node.first_message(0, Inbound::Message(ask), "10.0.0.9", "AA", 0);
    assert_eq!(reasons(first), "this peer is not the host of that room");
}

#[test]
fn a_request_shows_where_it_comes_from() {
    let mut w = World::new();
    let (host, code) = w.open_room("Host");
    let peer = PeerInfo {
        id: "0011".to_string(),
        name: "  Tab\there\n".to_string(),
        addr: String::new(),
        fingerprint: "zz".to_string(),
    };
    let hello = Control::Hello { version: 1, room: code, peer };
    let first =
        w.seats[host].node.first_message(0, Inbound::Message(hello), "10.0.0.9", "AA:BB", 0);
    match first {
        First::Done(actions) => match actions.into_iter().next() {
            Some(Action::Emit(Event::JoinRequest { req, name, addr, fingerprint })) => {
                assert_eq!(req, "1");
                assert_eq!(name, "Tabhere");
                assert_eq!(addr, "10.0.0.9");
                assert_eq!(fingerprint, "AA:BB");
            }
            _ => panic!("expected a request"),
        },
        First::Hold(_) => panic!("expected a request"),
    }
}

#[test]
fn too_many_attempts_are_ignored() {
    let mut w = World::new();
    let (host, _code) = w.open_room("Host");
    for i in 0..5u64 {
        let (source, actions) =
            w.seats[host].node.handle_incoming("192.168.1.9:5100", i, 1_000 + i);
        assert_eq!(source.as_deref(), Some("192.168.1.9"));
        assert!(actions.is_empty());
    }
    let (source, actions) = w.seats[host].node.handle_incoming("192.168.1.9:6000", 9, 2_000);
    assert!(source.is_none());
    assert_eq!(actions.len(), 2);
    assert!(matches!(
        &actions[0],
        Action::Emit(Event::Status(t))
            if t == "ignored a connection attempt from 192.168.1.9 (too many attempts)"
    ));
    assert!(matches!(actions[1], Action::Close { link: 9 }));
    // A minute later the budget is whole again.
    let (source, _) = w.seats[host].node.handle_incoming("192.168.1.9:6000", 10, 61 * SECOND);
    assert!(source.is_some());
}

// --- churn ---

#[test]
fn repeated_join_and_leave_always_reports_the_disconnect() {
    for i in 0..25 {
        let mut w = World::new();
        let (host, code) = w.open_room("Host");
        let alice = w.join_approved("Alice", &code, host);
        assert_eq!(w.peer_count(host), 1);

        w.leave(alice);

        let seen = w.disconnected(host, "Alice");
        assert!(seen.is_some(), "iteration {i}: no disconnect event");
        assert_eq!(w.peer_count(alice), 0);
        w.leave(host);
    }
}

#[test]
fn repeated_three_peer_mesh_formation_is_reliable() {
    for i in 0..10 {
        let mut w = World::new();
        let (host, code) = w.open_room("Host");
        let alice = w.join_approved("Alice", &code, host);
        let bob = w.join_approved("Bob", &code, host);

        assert_eq!(w.peer_count(host), 2);
        assert_eq!(w.peer_count(alice), 2);
        assert_eq!(w.peer_count(bob), 2);

        assert!(w.say(alice, "ping").is_ok());
        assert_eq!(w.chat_from(bob, "ping").as_deref(), Some("Alice"), "iteration {i}");
        assert_eq!(w.chat_from(host, "ping").as_deref(), Some("Alice"), "iteration {i}");

        w.leave(alice);
        w.leave(bob);
        w.leave(host);
    }
}

#[test]
fn a_joiner_that_leaves_before_approval_does_not_wedge_the_host() {
    let mut w = World::new();
    let (host, code) = w.open_room("Host");
    let alice = w.node("Alice");
    assert!(w.join(alice, &code).is_ok());
    let req = w.join_request(host);
    w.leave(alice);

    // Approving a vanished request must fail cleanly, not panic or hang.
    let _ = w.approve(host, &req, true);
    assert!(w.seats[host].node.pending_requests().is_empty());
    w.settle();

    // ...and the host still works afterwards.
    let carol = w.join_approved("Carol", &code, host);
    assert_eq!(w.peer_count(host), 1);
    assert!(w.say(host, "still alive").is_ok());
    assert_eq!(w.chat_from(carol, "still alive").as_deref(), Some("Host"));
    w.leave(carol);
}

#[test]
fn an_answered_request_cannot_be_answered_again() {
    let mut w = World::new();
    let (host, code) = w.open_room("Host");
    let joiner = w.node("Joiner");
    assert!(w.join(joiner, &code).is_ok());
    let req = w.join_request(host);
    assert!(w.approve(host, &req, false).is_ok());
    let err = w.approve(host, &req, true).unwrap_err();
    assert_eq!(err.message(), "protocol error: that join request is no longer pending");
}

// --- mesh ---

#[test]
fn three_peers_form_a_full_mesh_and_every_pair_can_talk() {
    let mut w = World::new();
    let (host, code) = w.open_room("Host");
    let alice = w.join_approved("Alice", &code, host);
    let bob = w.join_approved("Bob", &code, host);

    // Host<->Alice, Host<->Bob, Alice<->Bob: every node holds two links.
    assert_eq!(w.peer_count(host), 2);
    assert_eq!(w.peer_count(alice), 2);
    assert_eq!(w.peer_count(bob), 2);

    // Alice and Bob linked to each other directly, not through the host.
    assert!(w.seats[alice].node.peer_names().contains(&"Bob".to_string()));
    assert!(w.seats[bob].node.peer_names().contains(&"Alice".to_string()));

    assert!(w.say(host, "hello from the host").is_ok());
    assert_eq!(w.chat_from(alice, "hello from the host").as_deref(), Some("Host"));
    assert_eq!(w.chat_from(bob, "hello from the host").as_deref(), Some("Host"));

    assert!(w.say(alice, "alice speaking").is_ok());
    assert_eq!(w.chat_from(host, "alice speaking").as_deref(), Some("Alice"));
    assert_eq!(w.chat_from(bob, "alice speaking").as_deref(), Some("Alice"));

    assert!(w.say(bob, "bob speaking").is_ok());
    assert_eq!(w.chat_from(host, "bob speaking").as_deref(), Some("Bob"));
    assert_eq!(w.chat_from(alice, "bob speaking").as_deref(), Some("Bob"));
}

#[test]
fn messages_still_flow_between_joiners_after_the_host_leaves() {
    let mut w = World::new();
    let (host, code) = w.open_room("Host");
    let alice = w.join_approved("Alice", &code, host);
    let bob = w.join_approved("Bob", &code, host);
    assert_eq!(w.peer_count(alice), 2);
    assert_eq!(w.peer_count(bob), 2);

    w.leave(host);
    assert_eq!(w.peer_count(alice), 1);
    assert_eq!(w.peer_count(bob), 1);

    // The Alice<->Bob link was never owned by the host, so it survives.
    assert!(w.say(alice, "still here").is_ok());
    assert_eq!(w.chat_from(bob, "still here").as_deref(), Some("Alice"));
    assert!(w.say(bob, "me too").is_ok());
    assert_eq!(w.chat_from(alice, "me too").as_deref(), Some("Bob"));
}

#[test]
fn a_disconnect_is_reported_with_a_reason() {
    let mut w = World::new();
    let (host, code) = w.open_room("Host");
    let alice = w.join_approved("Alice", &code, host);
    assert_eq!(w.peer_count(host), 1);

    w.leave(alice);

    let detail = w.disconnected(host, "Alice").expect("the host should see Alice disconnect");
    assert!(!detail.is_empty());
    assert_eq!(w.peer_count(host), 0);
}

#[test]
fn the_transcript_records_messages_from_both_sides() {
    let mut w = World::new();
    let (host, code) = w.open_room("Host");
    let alice = w.join_approved("Alice", &code, host);
    assert_eq!(w.peer_count(host), 1);

    assert!(w.say(host, "one").is_ok());
    assert!(w.chat_from(alice, "one").is_some());
    assert!(w.say(alice, "two").is_ok());
    assert!(w.chat_from(host, "two").is_some());

    let text = w.seats[host].node.export_history();

    assert!(text.contains("Host: one"), "{text}");
    assert!(text.contains("Alice: two"), "{text}");
    assert!(text.contains("Transport : LAN"), "{text}");
}

#[test]
fn a_line_stands_in_both_transcripts_alike() {
    let mut w = World::new();
    let (host, code) = w.open_room("  Host\t ");
    let alice = w.join_approved("Alice", &code, host);
    assert!(w.say(host, " same here ").is_ok());
    let last = |who: usize| {
        let r = w.seats[who].node.history().pop().unwrap();
        (r.ts, r.sender, r.sender_id, r.body)
    };
    assert_eq!(last(host), last(alice));
    assert_eq!(last(alice).1, "Host");
    assert_eq!(last(alice).3, "same here");
}

#[test]
fn the_transcript_outlives_the_room() {
    let mut w = World::new();
    let (host, code) = w.open_room("Host");
    assert!(w.say(host, "anyone?").is_ok());
    w.leave(host);
    let text = w.seats[host].node.export_history();
    assert!(text.contains("Host: anyone?"), "{text}");
    assert!(text.contains("* Left the room"), "{text}");
    assert!(text.contains(&format!("Room code : {code}")), "{text}");
    assert_eq!(w.closed(host).as_deref(), Some("you left the room"));
    // A new room starts with a clean one.
    assert!(w.host(host, 60 * SECOND).is_ok());
    assert!(!w.seats[host].node.export_history().contains("anyone?"));
}

#[test]
fn a_line_that_reaches_nobody_says_so() {
    let mut w = World::new();
    let (host, _) = w.open_room("Host");
    assert!(w.say(host, "  hello?  ").is_ok());
    let told = w.find(host, |e| match e {
        Event::System(t) => Some(t.clone()),
        _ => None,
    });
    assert_eq!(
        told.as_deref(),
        Some("nobody is connected yet - that message was not delivered")
    );
    let before = w.seats[host].events.len();
    assert!(w.say(host, "   ").is_ok());
    assert_eq!(w.seats[host].events.len(), before);
}

#[test]
fn a_line_is_as_long_as_a_frame_lets_it_be() {
    let mut w = World::new();
    let (host, code) = w.open_room("Host");
    let alice = w.join_approved("Alice", &code, host);
    let long = "x".repeat(60_000);
    assert!(w.say(host, &long).is_ok());
    w.settle();
    let shown = w.find(alice, |e| match e {
        Event::Chat { body, .. } => Some(body.clone()),
        _ => None,
    });
    assert_eq!(shown, Some(long));
    // Kind and braces 57, two ids of 16, the name "Host", ten digits of time.
    let room = 65_519 - 57 - 32 - 4 - 10;
    assert!(w.say(host, &"x".repeat(room)).is_ok());
    let before = w.seats[host].node.history().len();
    let err = w.say(host, &"x".repeat(room + 1)).unwrap_err();
    assert_eq!(err.message(), "that message is too long");
    assert_eq!(w.seats[host].node.history().len(), before);
    // Four bytes each; and six for a control character, two for a quote.
    assert!(w.say(host, &"\u{1F600}".repeat(room / 4)).is_ok());
    assert!(w.say(host, &"\u{1F600}".repeat(room / 4 + 1)).is_err());
    assert!(w.say(host, &format!("x{}x", "\u{1}".repeat((room - 2) / 6))).is_ok());
    assert!(w.say(host, &format!("x{}x", "\u{1}".repeat((room - 2) / 6 + 1))).is_err());
    assert!(w.say(host, &"\"".repeat(room / 2 + 1)).is_err());
}

#[test]
fn requests_get_numbers_of_their_own() {
    let mut w = World::new();
    let (host, code) = w.open_room("Host");
    assert!(w.seats[host].node.can_number());
    for (link, name) in [(70, "Ann"), (71, "Bob"), (72, "Cid")] {
        let hello = Control::Hello {
            version: 1,
            room: code.clone(),
            peer: PeerInfo {
                id: name.to_string(),
                name: name.to_string(),
                addr: String::new(),
                fingerprint: String::new(),
            },
        };
        w.seats[host].node.first_message(link, Inbound::Message(hello), "10.0.0.9", "AA", 0);
    }
    let asked = w.seats[host].node.pending_requests();
    let expected: Vec<(String, String)> = [("1", "Ann"), ("2", "Bob"), ("3", "Cid")]
        .iter()
        .map(|(n, who)| (n.to_string(), who.to_string()))
        .collect();
    assert_eq!(asked, expected);
    assert!(w.seats[host].node.approve("2", false).is_ok());
    assert_eq!(w.seats[host].node.pending_requests().len(), 2);
}

#[test]
fn a_call_is_held_for_eight_seconds() {
    assert_eq!(hold_until(0), 8 * SECOND);
    assert_eq!(hold_until(5), 5 + 8 * SECOND);
    assert_eq!(hold_until(u64::MAX - 8 * SECOND), u64::MAX);
    assert_eq!(hold_until(u64::MAX - 1), u64::MAX);
}

#[test]
fn a_call_is_held_until_it_is_announced() {
    let mut w = World::new();
    let (host, code) = w.open_room("Host");
    let alice = w.join_approved("Alice", &code, host);
    let stranger = PeerInfo {
        id: "feedfacefeedface".to_string(),
        name: "Stranger".to_string(),
        addr: "127.0.0.1:1".to_string(),
        fingerprint: String::new(),
    };
    let call = |id: &str| PeerInfo {
        id: id.to_string(),
        name: "Stranger".to_string(),
        addr: "127.0.0.1:1".to_string(),
        fingerprint: String::new(),
    };
    let hello = Control::MeshHello { version: 1, room: code, peer: stranger };
    let node = &mut w.seats[alice].node;
    match node.first_message(7, Inbound::Message(hello), "10.0.0.9", "AA", 0) {
        First::Hold(p) => assert_eq!(p.id, "feedfacefeedface"),
        First::Done(_) => panic!("the call should be held"),
    }
    let id = "feedfacefeedface";
    assert!(matches!(node.check_held(id, 7, 0, ROSTER_GRACE), Held::Wait));
    assert!(matches!(node.check_held(id, 7, ROSTER_GRACE - 1, ROSTER_GRACE), Held::Wait));
    match node.check_held(id, 7, ROSTER_GRACE, ROSTER_GRACE) {
        Held::Refuse(actions) => assert!(matches!(
            &actions[0],
            Action::Send { message: Control::Rejected { reason }, .. }
                if reason.starts_with("you are not on this room's approved list")
        )),
        _ => panic!("the call should be refused"),
    }
    let from = call("hosthosthosthost");
    node.handle_control(&from, 0, Control::PeerJoined { peer: call(id) }, TS);
    assert!(matches!(node.check_held(id, 7, ROSTER_GRACE, ROSTER_GRACE), Held::Welcome(_)));
    node.attach_peer(call(id), 7, "AA", TS);
    match node.check_held(id, 8, 0, ROSTER_GRACE) {
        Held::Refuse(actions) => assert!(matches!(
            &actions[0],
            Action::Send { message: Control::Rejected { reason }, .. }
                if reason == "already linked to that peer"
        )),
        _ => panic!("the call should be refused"),
    }
}

#[test]
fn a_peer_that_cannot_be_reached_is_given_up_after_three_attempts() {
    let mut w = World::new();
    let (host, _) = w.open_room("Host");
    let gone = PeerInfo {
        id: "aa".to_string(),
        name: "Gone".to_string(),
        addr: "127.0.0.1:9".to_string(),
        fingerprint: String::new(),
    };
    w.perform(host, vec![Action::Dial { peer: gone }]);
    w.settle();
    let failed = w.find(host, |e| match e {
        Event::Peer { name, state: PeerState::Failed, detail, .. } => {
            Some((name.clone(), detail.clone()))
        }
        _ => None,
    });
    let (name, detail) = failed.expect("the peer should be given up");
    assert_eq!(name, "Gone");
    assert!(detail.starts_with("could not reach 127.0.0.1:9"), "{detail}");
}

#[test]
fn a_link_that_comes_up_after_leaving_is_closed() {
    let mut w = World::new();
    let (host, _) = w.open_room("Host");
    w.leave(host);
    let late = PeerInfo {
        id: "aa".to_string(),
        name: "Late".to_string(),
        addr: String::new(),
        fingerprint: String::new(),
    };
    let actions = w.seats[host].node.attach_peer(late, 3, "AA", TS);
    assert!(matches!(actions[..], [Action::Close { link: 3 }]));
    assert_eq!(w.peer_count(host), 0);
}

// --- files ---

fn make_data(size: usize) -> Vec<u8> {
    // Not compressible, not all-zero: catches any chunking or ordering bug.
    (0..size).map(|i| ((i * 31 + 7) % 251) as u8).collect()
}

fn offer(w: &World, who: usize) -> Option<(String, String, u64)> {
    w.find(who, |e| match e {
        Event::FileOffer { transfer, name, size, .. } => {
            Some((transfer.clone(), name.clone(), *size))
        }
        _ => None,
    })
}

fn finished(w: &World, who: usize, incoming: bool) -> Option<(bool, String)> {
    w.find(who, |e| match e {
        Event::FileFinished { incoming: i, ok, detail, .. } if *i == incoming => {
            Some((*ok, detail.clone()))
        }
        _ => None,
    })
}

#[test]
fn an_accepted_file_arrives_byte_for_byte() {
    let mut w = World::new();
    let (host, code) = w.open_room("Host");
    let alice = w.join_approved("Alice", &code, host);
    assert_eq!(w.peer_count(host), 1);

    // Several chunks plus a partial one.
    let src = make_data(200 * 1024 + 123);
    assert!(w.send_file(host, "payload.bin", &src).is_ok());

    let (transfer, name, size) = offer(&w, alice).expect("the recipient should be prompted");
    assert_eq!(name, "payload.bin");
    assert_eq!(size, 200 * 1024 + 123);

    assert!(w.respond(alice, &transfer, Some("received.bin")).is_ok());

    let saw_progress = w
        .find(alice, |e| match e {
            Event::FileProgress { incoming: true, .. } => Some(()),
            _ => None,
        })
        .is_some();
    let ok = finished(&w, alice, true).expect("the transfer should finish");
    assert!(ok.0, "transfer failed: {}", ok.1);
    assert_eq!(ok.1, "saved to received.bin");
    assert!(saw_progress, "progress should be reported to the recipient");

    let sent = finished(&w, host, false).expect("the sender should see success too");
    assert!(sent.0);
    assert_eq!(sent.1, "sent to Alice");

    assert_eq!(w.seats[alice].saved.len(), 1);
    assert!(w.seats[alice].saved[0] == src, "received bytes must match the source exactly");

    let text = w.seats[alice].node.export_history();
    assert!(
        text.contains("* Host (file) received payload.bin (200.1 KB) -> received.bin"),
        "{text}"
    );
    let text = w.seats[host].node.export_history();
    assert!(text.contains("* Host (file) sent payload.bin (200.1 KB) to Alice"), "{text}");
}

#[test]
fn a_declined_file_is_never_written() {
    let mut w = World::new();
    let (host, code) = w.open_room("Host");
    let alice = w.join_approved("Alice", &code, host);
    assert_eq!(w.peer_count(host), 1);

    let src = make_data(4096);
    assert!(w.send_file(host, "nope.bin", &src).is_ok());

    let (transfer, _, _) = offer(&w, alice).expect("offer");
    assert!(w.respond(alice, &transfer, None).is_ok());

    let (ok, detail) =
        finished(&w, host, false).expect("the sender should learn it was declined");
    assert!(!ok);
    assert!(detail.to_lowercase().contains("declined"), "{detail}");
    assert!(w.seats[alice].saved.is_empty());
    assert!(w.seats[alice].writing.is_empty());
    // It was answered, once and for all.
    let err = w.respond(alice, &transfer, Some("x")).unwrap_err();
    assert_eq!(err.message(), "protocol error: that file offer is no longer pending");
}

#[test]
fn a_file_sent_to_the_room_reaches_every_peer() {
    let mut w = World::new();
    let (host, code) = w.open_room("Host");
    let alice = w.join_approved("Alice", &code, host);
    let bob = w.join_approved("Bob", &code, host);
    assert_eq!(w.peer_count(host), 2);

    let src = make_data(64 * 1024);
    assert!(w.send_file(host, "group.bin", &src).is_ok());

    for (who, node) in [("alice", alice), ("bob", bob)] {
        let found = offer(&w, node);
        let (transfer, _, _) =
            found.unwrap_or_else(|| panic!("{who} should be offered the file"));
        assert!(w.respond(node, &transfer, Some(&format!("group-{who}.bin"))).is_ok());
        let (ok, _) =
            finished(&w, node, true).unwrap_or_else(|| panic!("{who} should finish the transfer"));
        assert!(ok, "{who} transfer failed");
        assert!(w.seats[node].saved[0] == src);
    }
}

#[test]
fn chat_still_works_while_a_file_is_in_flight() {
    let mut w = World::new();
    let (host, code) = w.open_room("Host");
    let alice = w.join_approved("Alice", &code, host);
    assert_eq!(w.peer_count(host), 1);

    let src = make_data(1024 * 1024);
    assert!(w.send_file(host, "big.bin", &src).is_ok());
    let (transfer, _, _) = offer(&w, alice).expect("offer");
    // The answer is on its way while the host goes on talking.
    match w.seats[alice].node.respond_offer(&transfer, Some("big-received.bin")).unwrap() {
        Answer::Create(a) => {
            w.seats[alice].writing.insert(a.id, Vec::new());
            let (link, message, _) = w.seats[alice].node.begin_download(a);
            assert!(w.post(alice, link, Packet::Message(message)).is_ok());
        }
        Answer::Declined(_) => panic!("the file was accepted"),
    }

    assert!(w.say(host, "still chatting").is_ok());
    assert_eq!(w.chat_from(alice, "still chatting").as_deref(), Some("Host"));

    let (ok, _) = finished(&w, alice, true).expect("transfer completes");
    assert!(ok);
    assert!(w.seats[alice].saved[0] == src);
}

#[test]
fn a_sender_that_disappears_ends_its_transfer() {
    let mut w = World::new();
    let (host, code) = w.open_room("Host");
    let alice = w.join_approved("Alice", &code, host);
    let src = make_data(100_000);
    assert!(w.send_file(host, "half.bin", &src).is_ok());
    let (transfer, _, _) = offer(&w, alice).expect("offer");
    let id = match w.seats[alice].node.respond_offer(&transfer, Some("half")).unwrap() {
        Answer::Create(a) => {
            let id = a.id;
            w.seats[alice].writing.insert(id, Vec::new());
            w.seats[alice].node.begin_download(a);
            id
        }
        Answer::Declined(_) => panic!("the file was accepted"),
    };
    w.leave(host);
    assert_eq!(finished(&w, alice, true), Some((false, "the sender disconnected".to_string())));
    assert!(!w.seats[alice].writing.contains_key(&id));
}

#[test]
fn a_recipient_that_disappears_ends_the_offer() {
    let mut w = World::new();
    let (host, code) = w.open_room("Host");
    let alice = w.join_approved("Alice", &code, host);
    assert!(w.send_file(host, "offer.bin", &make_data(10)).is_ok());
    w.leave(alice);
    assert_eq!(
        finished(&w, host, false),
        Some((false, "Alice declined (the peer disconnected)".to_string()))
    );
    let err = w.send_file(host, "offer.bin", &make_data(10)).unwrap_err();
    assert_eq!(err.message(), "there is nobody connected to send a file to");
}

#[test]
fn chunks_out_of_order_or_over_size_end_the_transfer() {
    let setup = || {
        let mut w = World::new();
        let (host, code) = w.open_room("Host");
        let alice = w.join_approved("Alice", &code, host);
        assert!(w.send_file(host, "x.bin", &make_data(10)).is_ok());
        let (transfer, _, _) = offer(&w, alice).expect("offer");
        let id = match w.seats[alice].node.respond_offer(&transfer, Some("x")).unwrap() {
            Answer::Create(a) => {
                let id = a.id;
                w.seats[alice].node.begin_download(a);
                id
            }
            Answer::Declined(_) => panic!("the file was accepted"),
        };
        (w, alice, id)
    };
    let (mut w, alice, id) = setup();
    let host = w.seats[alice].node.connected_peers().remove(0);
    let node = &mut w.seats[alice].node;
    assert!(matches!(node.handle_chunk(&host.info, &[9; 16], 0, 1), Verdict::Ignore));
    let other = PeerInfo {
        id: "someone else".to_string(),
        name: String::new(),
        addr: String::new(),
        fingerprint: String::new(),
    };
    assert!(matches!(node.handle_chunk(&other, &id, 0, 1), Verdict::Ignore));
    assert!(matches!(node.handle_chunk(&host.info, &id, 0, 10), Verdict::Write));
    match node.handle_chunk(&host.info, &id, 3, 1) {
        Verdict::Refuse(r) => {
            assert_eq!(r, "chunks arrived out of order (expected 0, got 3)")
        }
        _ => panic!("the chunk should be refused"),
    }
    match node.handle_chunk(&host.info, &id, 0, 11) {
        Verdict::Refuse(r) => assert_eq!(r, "the sender sent more data than it offered"),
        _ => panic!("the chunk should be refused"),
    }
    assert_eq!(Node::disk_failure("disk full"), "could not write to disk: disk full");
    let actions = node.refuse_chunk(host.link, id, "could not write to disk: disk full");
    assert!(matches!(actions[0], Action::CloseFile { .. }));
    assert!(matches!(
        &actions[1],
        Action::Send { message: Control::FileAbort { reason, .. }, .. }
            if reason == "could not write to disk: disk full"
    ));
    assert!(matches!(&actions[2], Action::Emit(Event::FileFinished { ok: false, .. })));
    assert!(matches!(node.handle_chunk(&host.info, &id, 0, 1), Verdict::Ignore));
}

#[test]
fn a_truncated_or_corrupt_file_is_reported_as_failed() {
    let mut w = World::new();
    let (host, code) = w.open_room("Host");
    let alice = w.join_approved("Alice", &code, host);
    let sender = w.seats[alice].node.connected_peers().remove(0);
    let hex32 = "000102030405060708090a0b0c0d0e0f";
    let id: [u8; 16] = [0, 1, 2, 3, 4, 5, 6, 7, 8, 9, 10, 11, 12, 13, 14, 15];
    for (data, detail) in [
        (vec![1u8, 2], "incomplete: got 2 B of 3 B"),
        (vec![1u8, 2, 3], "the checksum did not match - the file may be corrupt"),
    ] {
        let node = &mut w.seats[alice].node;
        node.handle_control(
            &sender.info,
            sender.link,
            Control::FileOffer {
                transfer: hex32.to_string(),
                name: "../up.bin".to_string(),
                size: 3,
                sha256: "00".to_string(),
            },
            TS,
        );
        match node.respond_offer(hex32, Some("up.bin")).unwrap() {
            Answer::Create(a) => {
                assert_eq!(a.offer.name, "up.bin");
                node.begin_download(a);
            }
            Answer::Declined(_) => panic!("the file was accepted"),
        }
        assert!(matches!(
            node.handle_chunk(&sender.info, &id, 0, data.len()),
            Verdict::Write
        ));
        node.chunk_written(&sender.info, &id, 0, &data, 0);
        let done = node.handle_control(
            &sender.info,
            sender.link,
            Control::FileDone { transfer: hex32.to_string() },
            TS,
        );
        assert!(matches!(done[0], Action::CloseFile { transfer } if transfer == id));
        match &done[1] {
            Action::Emit(Event::FileFinished { ok, detail: d, .. }) => {
                assert!(!*ok);
                assert_eq!(d, detail);
            }
            _ => panic!("the transfer should end"),
        }
    }
    let records = w.seats[alice].node.history();
    assert!(!records.iter().any(|r| r.body.contains("up.bin")));
}

#[test]
fn every_end_of_an_upload_is_described() {
    let io = || Error::Io(IoError::new(IoErrorKind::Other, "boom"));
    let cases: Vec<(UploadEnd, &str, bool)> = vec![
        (UploadEnd::OfferFailed(io()), "could not send the offer: boom", false),
        (UploadEnd::Declined("no".to_string()), "Alice declined (no)", false),
        (UploadEnd::TimedOut, "Alice did not answer in time", true),
        (UploadEnd::Unreadable("gone".to_string()), "could not read the file: gone", true),
        (UploadEnd::ReadFailed("bad sector".to_string()), "read error: bad sector", true),
        (UploadEnd::LinkFailed(io()), "link to Alice failed: boom", false),
        (UploadEnd::Sent, "sent to Alice", true),
    ];
    for (end, text, word) in cases {
        let mut w = World::new();
        let (host, code) = w.open_room("Host");
        w.join_approved("Alice", &code, host);
        let alice = w.seats[host].node.connected_peers().remove(0);
        let up = w.seats[host].node.begin_upload(&alice, "f.bin", 5, "aa");
        let ok = matches!(end, UploadEnd::Sent);
        let actions = w.seats[host].node.finish_out(&up, end, TS);
        assert_eq!(actions.len(), if word { 2 } else { 1 });
        match actions.last() {
            Some(Action::Emit(Event::FileFinished { ok: o, detail, incoming, .. })) => {
                assert_eq!(*o, ok);
                assert_eq!(detail, text);
                assert!(!*incoming);
            }
            _ => panic!("the upload should end"),
        }
    }
}

#[test]
fn progress_is_not_reported_too_often() {
    let mut w = World::new();
    let (host, code) = w.open_room("Host");
    w.join_approved("Alice", &code, host);
    let alice = w.seats[host].node.connected_peers().remove(0);
    let mut up = w.seats[host].node.begin_upload(&alice, "f.bin", 100, "aa");
    assert_eq!(up.chunk_sent(10, 0).len(), 1);
    assert_eq!(up.chunk_sent(10, 149 * MILLISECOND).len(), 0);
    assert_eq!(up.chunk_sent(10, 150 * MILLISECOND).len(), 1);
    assert_eq!(up.chunk_sent(70, 151 * MILLISECOND).len(), 1);
    assert_eq!(up.sent, 100);
    assert_eq!(up.seq, 4);
}

// --- the node by itself ---

#[test]
fn a_fresh_node_is_in_no_room() {
    let mut n = Node::new("  Ann\n").ok().unwrap();
    assert!(!n.is_active() && !n.is_host());
    assert!(n.role().is_none() && n.kind().is_none());
    assert_eq!(n.room(), "");
    assert_eq!(n.transport(), "-");
    assert_eq!(n.me().name, "Ann");
    assert_eq!(n.me().id, n.my_id());
    assert_eq!(n.my_id().len(), 16);
    assert_eq!(n.me().fingerprint, n.fingerprint());
    assert_eq!(n.fingerprint(), n.identity().fingerprint());
    assert!(n.history().is_empty() && n.connected_peers().is_empty());
    assert!(n.peer_by_id("x").is_none());
    assert!(n.ensure_idle().is_ok());
    assert!(n.leave().is_empty());
    assert!(n.accept_stopped().is_empty());
    n.set_display_name(" Bea ");
    assert_eq!(n.me().name, "Bea");
}

#[test]
fn only_the_host_can_reopen() {
    let mut w = World::new();
    let (host, code) = w.open_room("Host");
    let alice = w.join_approved("Alice", &code, host);
    let at = w.moment();
    match w.seats[alice].node.reopen_joining(SECOND, at) {
        Err(e) => assert_eq!(e.message(), "only the host can reopen joining"),
        Ok(_) => panic!("a joiner cannot reopen"),
    }
    assert!(w.seats[host].node.is_host());
    assert_eq!(w.seats[host].node.peer_by_id(&w.seats[alice].node.my_id()).unwrap().info.name, "Alice");
    assert!(matches!(
        &w.seats[host].node.accept_stopped()[..],
        [Action::Emit(Event::Status(t))] if t == "stopped listening for new connections"
    ));
}

#[test]
fn a_handshake_that_fails_is_noted() {
    let e = Error::Crypto("bad".to_string());
    let actions = Node::handshake_failed("10.0.0.9", &e, 4);
    assert!(matches!(
        &actions[..],
        [Action::Emit(Event::Status(t)), Action::Close { link: 4 }]
            if t == "a connection from 10.0.0.9 failed to handshake: encryption error: bad"
    ));
}

#[test]
fn replies_that_make_no_sense_end_the_join() {
    let cases: Vec<(Inbound, &str)> = vec![
        (
            Inbound::Message(Control::Bye),
            "the host sent an unexpected reply - version mismatch?",
        ),
        (
            Inbound::Malformed(Error::Protocol("empty frame".to_string())),
            "bad reply from the host: protocol error: empty frame",
        ),
        (Inbound::Message(Control::Rejected { reason: "no".to_string() }), "no"),
    ];
    for (reply, reason) in cases {
        let mut w = World::new();
        let (_, code) = w.open_room("Host");
        let n = w.node("Joiner");
        assert!(w.seats[n].node.join(TransportKind::Lan, &code, "127.0.0.1:5").is_ok());
        let actions = w.seats[n].node.await_welcome(9, reply, "AA", TS);
        assert!(matches!(actions[0], Action::Close { link: 9 }));
        assert!(matches!(&actions[1], Action::Emit(Event::RoomClosed(r)) if r == reason));
        assert!(!w.seats[n].node.is_active());
    }
    let mut w = World::new();
    let (_, code) = w.open_room("Host");
    let n = w.node("Joiner");
    assert!(w.seats[n].node.join(TransportKind::Lan, &code, "127.0.0.1:5").is_ok());
    match w.seats[n].node.join(TransportKind::Lan, &code, "127.0.0.1:5") {
        Err(e) => assert_eq!(e.message(), "you are already in a room - leave it first"),
        Ok(_) => panic!("one room at a time"),
    }
    let e = Error::Closed("gone".to_string());
    let actions = w.seats[n].node.host_lost(&e);
    assert!(matches!(
        &actions[0],
        Action::Emit(Event::RoomClosed(r)) if r == "the connection to the host was lost: gone"
    ));
}

#[test]
fn a_file_has_to_be_one() {
    match Node::file_to_send(false, Some("x"), 1) {
        Err(e) => assert_eq!(e.message(), "that is not a regular file"),
        Ok(_) => panic!("a folder cannot be sent"),
    }
    let (name, status) = Node::file_to_send(true, Some("a/b.txt"), 2048).ok().unwrap();
    assert_eq!(name, "b.txt");
    assert!(matches!(status, Event::Status(t) if t == "Hashing b.txt (2.0 KB)..."));
    assert_eq!(Node::file_to_send(true, None, 0).ok().unwrap().0, "file.bin");
}

#[test]
fn handshake_messages_in_mid_session_are_ignored() {
    let mut w = World::new();
    let (host, code) = w.open_room("Host");
    w.join_approved("Alice", &code, host);
    let alice = w.seats[host].node.connected_peers().remove(0);
    let me = w.seats[host].node.me();
    let before = w.seats[host].node.history().len();
    for c in [
        Control::MeshAck { peer: me.clone() },
        Control::Hello { version: 1, room: code.clone(), peer: me.clone() },
        Control::Welcome { room: code.clone(), host: me, peers: Vec::new() },
        Control::FileDone { transfer: "zz".to_string() },
    ] {
        assert!(w.seats[host].node.handle_control(&alice.info, alice.link, c, TS).is_empty());
    }
    assert_eq!(w.seats[host].node.history().len(), before);
    let said = w.seats[host].node.handle_control(
        &alice.info,
        alice.link,
        Control::Rejected { reason: "why".to_string() },
        TS,
    );
    assert!(matches!(&said[..], [Action::Emit(Event::Error(t))] if t == "Alice: why"));
    let e = Error::Protocol("x".to_string());
    assert!(matches!(
        malformed_message(&alice.info, &e),
        Event::Error(t) if t == "malformed message from Alice: protocol error: x"
    ));
}
