use rusty_junctions::bag::Bag;
use rusty_junctions::channels::{BidirChannel, Mode, RecvChannel, SendChannel, StrippedChannel};
use rusty_junctions::counter::Counter;
use rusty_junctions::ids::{ChannelId, JunctionId, JunctionIdSource};
use rusty_junctions::junction::Junction;
use rusty_junctions::model::Packet;
use rusty_junctions::patterns::JoinPattern;

fn two_junctions() -> (Junction<u8>, Junction<u8>) {
    let mut source = JunctionIdSource::new();
    let first = Junction::new(&mut source, 1);
    let second = Junction::new(&mut source, 2);
    (first, second)
}

fn ids(pattern: &JoinPattern) -> Vec<usize> {
    pattern.channels().iter().map(|id| id.to_usize()).collect()
}

#[test]
fn test_send_channel_keeps_its_identity() {
    let (junction, _) = two_junctions();

    let channel: SendChannel = junction.send_channel(ChannelId::from_usize(5));

    assert_eq!(ChannelId::from_usize(5), channel.id());
    assert_eq!(junction.id(), channel.junction_id());
    assert_eq!(
        StrippedChannel { id: ChannelId::from_usize(5), junction_id: junction.id(), mode: Mode::Send },
        channel.strip()
    );
}

#[test]
fn test_recv_channel_keeps_its_identity() {
    let (_, junction) = two_junctions();

    let channel: RecvChannel = junction.recv_channel(ChannelId::from_usize(6));

    assert_eq!(ChannelId::from_usize(6), channel.id());
    assert_eq!(junction.id(), channel.junction_id());
    assert_eq!(
        StrippedChannel { id: ChannelId::from_usize(6), junction_id: junction.id(), mode: Mode::Recv },
        channel.strip()
    );
}

#[test]
fn test_bidir_channel_keeps_its_identity() {
    let (junction, _) = two_junctions();

    let channel: BidirChannel = junction.bidir_channel(ChannelId::from_usize(7));

    assert_eq!(ChannelId::from_usize(7), channel.id());
    assert_eq!(junction.id(), channel.junction_id());
    assert_eq!(
        StrippedChannel { id: ChannelId::from_usize(7), junction_id: junction.id(), mode: Mode::Bidir },
        channel.strip()
    );
}

#[test]
fn test_copy_of_channel_behaves_like_the_channel() {
    let (junction, _) = two_junctions();
    let channel = junction.send_channel(ChannelId::from_usize(5));

    let copy = channel;

    assert_eq!(channel, copy);
    assert!(matches!(
        (channel.send(1), copy.send(1)),
        (
            Packet::Message { channel_id: a, msg: 1 },
            Packet::Message { channel_id: b, msg: 1 }
        ) if a == b && a.to_usize() == 5
    ));
}

#[test]
fn test_packets_carry_channel_and_payload() {
    let (junction, _) = two_junctions();
    let send = junction.send_channel(ChannelId::from_usize(1));
    let recv = junction.recv_channel(ChannelId::from_usize(2));
    let bidir = junction.bidir_channel(ChannelId::from_usize(3));

    assert!(matches!(send.send("a"), Packet::Message { channel_id, msg: "a" } if channel_id.to_usize() == 1));
    assert!(matches!(recv.recv("b"), Packet::Message { channel_id, msg: "b" } if channel_id.to_usize() == 2));
    assert!(
        matches!(bidir.send_recv(("c", 4)), Packet::Message { channel_id, msg: ("c", 4) } if channel_id.to_usize() == 3)
    );
}

#[test]
fn test_send_pattern_lists_channels_in_order() {
    let (junction, _) = two_junctions();
    let a = junction.send_channel(ChannelId::from_usize(4));
    let b = junction.send_channel(ChannelId::from_usize(2));

    let pattern = junction.when(&a).unwrap().and(&b).unwrap().and(&a).unwrap().then_do();

    assert_eq!(vec![4, 2, 4], ids(&pattern));
    assert_eq!(Mode::Send, pattern.terminal_mode());
    assert_eq!(2, pattern.required(4));
    assert_eq!(1, pattern.required(2));
    assert_eq!(0, pattern.required(3));
}

#[test]
fn test_recv_pattern_ends_in_recv_channel() {
    let (junction, _) = two_junctions();
    let a = junction.send_channel(ChannelId::from_usize(0));
    let r = junction.recv_channel(ChannelId::from_usize(1));

    let unary = junction.when_recv(&r).unwrap().then_do();
    let binary = junction.when(&a).unwrap().and_recv(&r).unwrap().then_do();
    let ternary = junction.when(&a).unwrap().and(&a).unwrap().and_recv(&r).unwrap().then_do();

    assert_eq!(vec![1], ids(&unary));
    assert_eq!(vec![0, 1], ids(&binary));
    assert_eq!(vec![0, 0, 1], ids(&ternary));
    assert_eq!(Mode::Recv, unary.terminal_mode());
    assert_eq!(Mode::Recv, binary.terminal_mode());
    assert_eq!(Mode::Recv, ternary.terminal_mode());
}

#[test]
fn test_bidir_pattern_ends_in_bidir_channel() {
    let (junction, _) = two_junctions();
    let a = junction.send_channel(ChannelId::from_usize(0));
    let b = junction.bidir_channel(ChannelId::from_usize(1));

    let unary = junction.when_bidir(&b).unwrap().then_do();
    let binary = junction.when(&a).unwrap().and_bidir(&b).unwrap().then_do();

    assert_eq!(vec![1], ids(&unary));
    assert_eq!(vec![0, 1], ids(&binary));
    assert_eq!(Mode::Bidir, unary.terminal_mode());
    assert_eq!(Mode::Bidir, binary.terminal_mode());
}

#[test]
fn test_pattern_is_alive_with_a_message_on_each_channel() {
    let (junction, _) = two_junctions();
    let a = junction.send_channel(ChannelId::from_usize(0));
    let b = junction.send_channel(ChannelId::from_usize(1));
    let pattern = junction.when(&a).unwrap().and(&b).unwrap().then_do();
    let mut messages: Bag<usize, char> = Bag::new();

    assert!(!pattern.is_alive(&messages));
    messages.add(0, 'x');
    assert!(!pattern.is_alive(&messages));
    messages.add(1, 'y');
    assert!(pattern.is_alive(&messages));
    messages.retrieve(&0);
    assert!(!pattern.is_alive(&messages));
}

#[test]
fn test_pattern_with_repeated_channel_needs_as_many_messages() {
    let (junction, _) = two_junctions();
    let a = junction.send_channel(ChannelId::from_usize(0));
    let b = junction.send_channel(ChannelId::from_usize(1));
    let pattern = junction.when(&a).unwrap().and(&b).unwrap().and(&a).unwrap().then_do();
    let mut messages: Bag<usize, char> = Bag::new();

    messages.add(0, 'x');
    messages.add(1, 'y');
    messages.add(1, 'z');
    assert!(!pattern.is_alive(&messages));
    messages.add(0, 'w');
    assert!(pattern.is_alive(&messages));
}

#[test]
fn test_junction_ids_are_drawn_in_sequence() {
    let mut source = JunctionIdSource::new();

    let first = JunctionId::new(&mut source);
    let second = JunctionId::new(&mut source);
    let third = JunctionId::new(&mut source);

    assert_eq!(0, first.to_usize());
    assert_eq!(1, second.to_usize());
    assert_eq!(2, third.to_usize());
    assert_ne!(first, second);
}

#[test]
fn test_channel_id_increment() {
    let mut id = ChannelId::default();
    assert_eq!(0, id.to_usize());

    id.increment();
    id.increment();

    assert_eq!(2, id.to_usize());
    assert_eq!(ChannelId::from_usize(2), id);
}

#[test]
fn test_junction_hands_out_its_handle_once() {
    let (mut first, mut second) = two_junctions();

    assert_eq!(Some(1), first.controller_handle());
    assert_eq!(None, first.controller_handle());
    assert_eq!(None, first.controller_handle());
    assert_eq!(Some(2), second.controller_handle());
    assert_eq!(0, first.id().to_usize());
    assert_eq!(1, second.id().to_usize());
}

#[test]
fn test_mode_from_str() {
    assert_eq!(Ok(Mode::Send), Mode::from_str("Send"));
    assert_eq!(Ok(Mode::Recv), Mode::from_str("Recv"));
    assert_eq!(Ok(Mode::Bidir), Mode::from_str("Bidir"));
    assert_eq!(
        Err("Invalid channel mode send, must be one of [Send|Recv|Bidir]".to_string()),
        Mode::from_str("send")
    );
    assert_eq!(
        Err("Invalid channel mode , must be one of [Send|Recv|Bidir]".to_string()),
        Mode::from_str("")
    );
}

#[test]
fn test_counter_digits_after_increment() {
    let mut counter = Counter::default();
    assert_eq!(&vec![0], counter.digits());

    counter.increment();
    assert_eq!(&vec![1], counter.digits());

    let mut full = Counter::from(vec![u64::MAX, u64::MAX]);
    full.increment();
    assert_eq!(&vec![0, 0, 1], full.digits());

    let mut empty = Counter::from(vec![]);
    empty.increment();
    assert_eq!(&vec![1], empty.digits());
}

#[test]
fn test_counter_order_goes_by_length_first() {
    let short = Counter::from(vec![u64::MAX]);
    let long = Counter::from(vec![0, 0]);
    let longer = Counter::from(vec![0, 0, 0]);

    assert!(short < long);
    assert!(long < longer);
    assert!(short < longer);
    assert_eq!(std::cmp::Ordering::Less, short.cmp(&long));
    assert_eq!(std::cmp::Ordering::Greater, long.cmp(&short));
    assert_eq!(std::cmp::Ordering::Equal, long.cmp(&Counter::from(vec![0, 0])));
    assert_eq!(long.clone(), long);
}

#[test]
fn test_counter_grows_with_every_increment() {
    let mut counter = Counter::from(vec![u64::MAX - 2]);

    for _ in 0..5 {
        let before = counter.clone();
        counter.increment();
        assert!(before < counter);
        assert!(before != counter);
    }

    assert_eq!(Counter::from(vec![2, 1]), counter);
}
