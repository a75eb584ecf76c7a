use magic_vlsi::{Command, Failure, MagicInstanceBuilder, Session, Stage, Turn, Verdict};

/// A peer that answers from a list of reads, in order.
struct Peer {
    reads: Vec<Vec<u8>>,
    next: usize,
    written: Vec<String>,
}

fn peer(reads: &[&[u8]]) -> Peer {
    Peer { reads: reads.iter().map(|read| read.to_vec()).collect(), next: 0, written: Vec::new() }
}

fn exchange(session: Session, command: &Command, peer: &mut Peer) -> Result<(String, Session), Failure> {
    let (line, sending) = session.send(command);
    peer.written.push(line);
    let mut receiving = sending.written(true)?;
    loop {
        let read = peer.reads[peer.next].clone();
        peer.next += 1;
        match receiving.received(Some(&read))? {
            Turn::Reply(reply, session) => return Ok((reply, session)),
            Turn::More(more) => receiving = more,
        }
    }
}

fn start(builder: &MagicInstanceBuilder, connects: &[bool]) -> Session {
    let mut stage = Stage::start();
    let mut attempts = 0;
    loop {
        let succeeded = match stage {
            Stage::Spawn => {
                assert!(!builder.program().is_empty());
                true
            }
            Stage::Bootstrap => {
                assert!(builder.bootstrap(b"").starts_with(b"set svcPort "));
                true
            }
            Stage::Connect => {
                attempts += 1;
                connects[attempts - 1]
            }
        };
        match stage.next(succeeded) {
            Verdict::Continue(next) => stage = next,
            Verdict::Connected => return Session::new(),
            Verdict::Abort(failure) => panic!("{}", failure.describe()),
        }
    }
}

#[test]
fn test_start_magic() {
    let builder = MagicInstanceBuilder::new().tech("sky130A").port(1024);
    assert_eq!(builder.program(), "magic");
    assert_eq!(
        builder.arguments(),
        vec![
            "-dnull".to_string(),
            "-noconsole".to_string(),
            "-T".to_string(),
            "sky130A".to_string(),
        ]
    );
    assert_eq!(builder.address(), "127.0.0.1:1024");
    let _session = start(&builder, &[false, false, true]);
}

#[test]
fn test_getcell() {
    let builder = MagicInstanceBuilder::new().tech("sky130A").port(1025);
    let session = start(&builder, &[true]);
    let mut peer = peer(&[b"0\n"]);
    let (reply, _session) = exchange(session, &Command::getcell("sram"), &mut peer).unwrap();
    assert_eq!(peer.written, vec!["getcell sram\n".to_string()]);
    assert_eq!(reply, "0");
}

#[test]
fn test_select_bbox() {
    let builder = MagicInstanceBuilder::new().port(1026).tech("sky130A").cwd("src/");
    assert_eq!(builder.directory(), Some("src/".to_string()));
    let session = start(&builder, &[true]);
    let mut peer = peer(&[b"0\n", b"0 0 ", b"10 20\n"]);
    let (first, session) = exchange(session, &Command::getcell("sram"), &mut peer).unwrap();
    let (second, _session) = exchange(session, &Command::select_bbox(), &mut peer).unwrap();
    assert_eq!(peer.written, vec!["getcell sram\n".to_string(), "select bbox\n".to_string()]);
    assert_eq!(first, "0");
    assert_eq!(second, "0 0 10 20");
}

#[test]
fn replies_pair_with_commands_in_order() {
    let mut peer = peer(&[b"first\n", b"sec", b"ond\n", b"third\n"]);
    let session = Session::new();
    let (one, session) = exchange(session, &Command::getcell("X"), &mut peer).unwrap();
    assert_eq!(peer.next, 1);
    let (two, session) = exchange(session, &Command::sideways(), &mut peer).unwrap();
    assert_eq!(peer.next, 3);
    let (three, _session) = exchange(session, &Command::select_bbox(), &mut peer).unwrap();
    assert_eq!(peer.next, 4);
    assert_eq!((one.as_str(), two.as_str(), three.as_str()), ("first", "second", "third"));
    assert_eq!(
        peer.written,
        vec!["getcell X\n".to_string(), "sideways\n".to_string(), "select bbox\n".to_string()]
    );
}

#[test]
fn what_follows_a_reply_in_its_read_is_lost() {
    let mut peer = peer(&[b"ok\nextra", b"next\n"]);
    let session = Session::new();
    let (one, session) = exchange(session, &Command::sideways(), &mut peer).unwrap();
    let (two, _session) = exchange(session, &Command::sideways(), &mut peer).unwrap();
    assert_eq!(one, "ok");
    assert_eq!(two, "next");
}

#[test]
fn failed_write_is_fatal() {
    let (_line, sending) = Session::new().send(&Command::sideways());
    assert_eq!(sending.written(false).err(), Some(Failure::CommandWrite));
}

#[test]
fn failed_read_is_fatal() {
    let (_line, sending) = Session::new().send(&Command::select_bbox());
    let receiving = sending.written(true).ok().unwrap();
    assert_eq!(receiving.received(None).err(), Some(Failure::ReplyRead));
}

#[test]
fn failed_read_after_part_of_a_reply_is_fatal() {
    let (_line, sending) = Session::new().send(&Command::select_bbox());
    let receiving = sending.written(true).ok().unwrap();
    let receiving = match receiving.received(Some(b"0 0")) {
        Ok(Turn::More(receiving)) => receiving,
        _ => panic!("the reply is not complete"),
    };
    assert_eq!(receiving.received(None).err(), Some(Failure::ReplyRead));
}

#[test]
fn undecodable_reply_is_fatal() {
    let mut peer = peer(&[&[0xff, b'\n']]);
    let result = exchange(Session::new(), &Command::sideways(), &mut peer);
    assert_eq!(result.err(), Some(Failure::Decode));
}

#[test]
fn empty_read_leaves_the_reply_awaited() {
    let mut peer = peer(&[b"", b"", b"ok\n"]);
    let (reply, _session) = exchange(Session::new(), &Command::sideways(), &mut peer).unwrap();
    assert_eq!(reply, "ok");
    assert_eq!(peer.next, 3);
}
