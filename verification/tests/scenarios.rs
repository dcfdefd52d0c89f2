use rusty_junctions::controller::Controller;
use rusty_junctions::ids::{ChannelId, JunctionIdSource};
use rusty_junctions::junction::Junction;
use rusty_junctions::model::{ControlError, Packet, Reply};

#[derive(Debug, Clone, PartialEq)]
enum Payload {
    Value(i32),
    Unit,
    Request(usize),
}

fn setup() -> (Junction<()>, Controller<Payload>) {
    let mut source = JunctionIdSource::new();
    (Junction::new(&mut source, ()), Controller::new())
}

fn new_id(controller: &mut Controller<Payload>) -> ChannelId {
    match controller.handle_packet(Packet::NewChannelIdRequest) {
        Ok(Reply::NewChannelId { channel_id }) => channel_id,
        other => panic!("no channel identity: {:?}", other),
    }
}

fn add(controller: &mut Controller<Payload>, join_pattern: rusty_junctions::patterns::JoinPattern) -> usize {
    match controller.handle_packet(Packet::AddJoinPatternRequest { join_pattern }) {
        Ok(Reply::Registered { pattern_id }) => pattern_id.to_usize(),
        other => panic!("not registered: {:?}", other),
    }
}

#[test]
fn test_storage_cell() {
    let (cell, mut controller) = setup();
    let val = cell.send_channel(new_id(&mut controller));
    let put = cell.send_channel(new_id(&mut controller));
    let get = cell.recv_channel(new_id(&mut controller));
    let update = add(&mut controller, cell.when(&val).unwrap().and(&put).unwrap().then_do());
    let read = add(&mut controller, cell.when(&val).unwrap().and_recv(&get).unwrap().then_do());
    let mut replies: Vec<(usize, i32)> = Vec::new();
    let mut posted = vec![
        val.send(Payload::Value(1729)),
        put.send(Payload::Value(42)),
        get.recv(Payload::Request(0)),
        get.recv(Payload::Request(1)),
    ];
    posted.reverse();

    while let Some(packet) = posted.pop() {
        if let Ok(Reply::Fired { pattern_id, messages }) = controller.handle_packet(packet) {
            match (pattern_id.to_usize(), &messages[0], &messages[1]) {
                (p, Payload::Value(_old), Payload::Value(new)) if p == update => {
                    posted.push(val.send(Payload::Value(*new)));
                }
                (p, Payload::Value(v), Payload::Request(who)) if p == read => {
                    replies.push((*who, *v));
                    posted.push(val.send(Payload::Value(*v)));
                }
                other => panic!("unexpected firing: {:?}", other),
            }
        }
    }

    assert_eq!(vec![(0, 42), (1, 42)], replies);
    assert_eq!(1, controller.pending(val.id()));
    assert_eq!(0, controller.pending(put.id()));
    assert_eq!(0, controller.pending(get.id()));
}

#[test]
fn test_mutex() {
    let (junction, mut controller) = setup();
    let lock = junction.send_channel(new_id(&mut controller));
    let acquire = junction.recv_channel(new_id(&mut controller));
    let release = junction.send_channel(new_id(&mut controller));
    let grant = add(&mut controller, junction.when(&lock).unwrap().and_recv(&acquire).unwrap().then_do());
    let free = add(&mut controller, junction.when(&release).unwrap().then_do());
    let mut holders: Vec<usize> = Vec::new();
    let mut held = false;

    let mut post = |controller: &mut Controller<Payload>, packet: Packet<Payload>| {
        let mut queue = vec![packet];
        while let Some(packet) = queue.pop() {
            if let Ok(Reply::Fired { pattern_id, messages }) = controller.handle_packet(packet) {
                if pattern_id.to_usize() == grant {
                    assert!(!held);
                    held = true;
                    match messages[1] {
                        Payload::Request(who) => holders.push(who),
                        _ => panic!("no request at the end"),
                    }
                } else {
                    assert_eq!(free, pattern_id.to_usize());
                    assert!(held);
                    held = false;
                    queue.push(lock.send(Payload::Unit));
                }
            }
        }
    };

    post(&mut controller, lock.send(Payload::Unit));
    post(&mut controller, acquire.recv(Payload::Request(1)));
    post(&mut controller, acquire.recv(Payload::Request(2)));
    post(&mut controller, release.send(Payload::Unit));
    post(&mut controller, release.send(Payload::Unit));

    assert_eq!(vec![1, 2], holders);
    assert_eq!(1, controller.pending(lock.id()));
    assert_eq!(0, controller.pending(acquire.id()));
}

#[test]
fn test_binary_send_pattern() {
    let (junction, mut controller) = setup();
    let a = junction.send_channel(new_id(&mut controller));
    let b = junction.send_channel(new_id(&mut controller));
    add(&mut controller, junction.when(&a).unwrap().and(&b).unwrap().then_do());
    let mut firings: Vec<(Payload, Payload)> = Vec::new();

    for packet in [
        a.send(Payload::Value(1)),
        a.send(Payload::Value(2)),
        b.send(Payload::Value(10)),
        b.send(Payload::Value(20)),
    ] {
        if let Ok(Reply::Fired { messages, .. }) = controller.handle_packet(packet) {
            firings.push((messages[0].clone(), messages[1].clone()));
        }
    }

    assert_eq!(
        vec![
            (Payload::Value(1), Payload::Value(10)),
            (Payload::Value(2), Payload::Value(20))
        ],
        firings
    );
}

#[test]
fn test_fairness_between_subset_and_superset() {
    let (junction, mut controller) = setup();
    let x = junction.send_channel(new_id(&mut controller));
    let y = junction.send_channel(new_id(&mut controller));
    let a = add(&mut controller, junction.when(&x).unwrap().then_do());
    let b = add(&mut controller, junction.when(&x).unwrap().and(&y).unwrap().then_do());
    let mut fired: Vec<usize> = Vec::new();

    for round in 0..30 {
        if round % 5 == 0 {
            controller.handle_packet(y.send(Payload::Unit)).unwrap();
        }
        match controller.handle_packet(x.send(Payload::Value(round))) {
            Ok(Reply::Fired { pattern_id, .. }) => fired.push(pattern_id.to_usize()),
            other => panic!("nothing fired: {:?}", other),
        }
    }

    // Neither pattern has fired when the first `x` comes: the one registered
    // first fires, and the other takes the `y` on the next `x`.
    let expected: Vec<usize> = (0..30)
        .map(|round| match round {
            0 => a,
            1 => b,
            _ if round % 5 == 0 => b,
            _ => a,
        })
        .collect();
    assert_eq!(expected, fired);
    assert_eq!(0, controller.pending(y.id()));
}

#[test]
fn test_shutdown_before_recv() {
    let (junction, mut controller) = setup();
    let value = junction.send_channel(new_id(&mut controller));
    let get = junction.recv_channel(new_id(&mut controller));
    add(&mut controller, junction.when(&value).unwrap().and_recv(&get).unwrap().then_do());

    assert!(matches!(controller.handle_packet(get.recv(Payload::Request(0))), Ok(Reply::Stored)));
    assert!(matches!(controller.handle_packet(Packet::ShutDownRequest), Ok(Reply::ShutDown)));
    let late = controller.handle_packet(value.send(Payload::Value(1)));

    assert!(matches!(late, Err(ControlError::PostAfterShutdown)));
    assert_eq!(1, controller.pending(get.id()));
    assert_eq!(0, controller.pending(value.id()));
}
