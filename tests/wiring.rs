use minesweeperlib::{ChannelMessage, ChannelWiring, Exchange, GameState, Network};

const TEST_WIRING: usize = 0;
const OBJ1: usize = 1;
const OBJ2: usize = 2;
const OBJ3: usize = 3;

#[test]
fn test_simple_wiring() {
    let mut wire_channel = ChannelWiring::new();
    wire_channel.wire(OBJ1, OBJ2);

    let (senders, receiver) = wire_channel.channels(OBJ1);
    assert!(senders.is_some());
    assert!(receiver.is_none());
    assert_eq!(senders.unwrap().len(), 1);

    let (senders, receiver) = wire_channel.channels(OBJ2);
    assert!(senders.is_none());
    assert!(receiver.is_some());
}

#[test]
fn test_complex_wiring() {
    let mut wire_channel = ChannelWiring::new();
    wire_channel.wire(OBJ1, OBJ2);
    wire_channel.wire(OBJ2, OBJ3);
    wire_channel.wire(TEST_WIRING, OBJ1);
    wire_channel.wire(OBJ3, TEST_WIRING);

    let obj1 = Exchange::new_from_wiring(&mut wire_channel, OBJ1);
    let obj2 = Exchange::new_from_wiring(&mut wire_channel, OBJ2);
    let obj3 = Exchange::new_from_wiring(&mut wire_channel, OBJ3);
    let mut objs: Vec<Exchange> = vec![obj1, obj2, obj3];

    let (senders, receiver) = wire_channel.channels(TEST_WIRING);
    let receiver = receiver.unwrap();
    let senders = senders.unwrap();
    let sender = senders.first().unwrap();
    let mut net: Network = wire_channel.into_network();

    // send the message
    net.send(sender, ChannelMessage::GameStateChanged(GameState::Init));
    assert!(net.receive_all(&receiver).is_empty());

    // move the message through the chain
    for obj in objs.iter_mut() {
        obj.pull(&mut net);
        obj.push(&mut net);
    }

    // receive it
    let m = net.receive_all(&receiver);
    assert_eq!(m.len(), 1);
    assert_eq!(m[0], ChannelMessage::GameStateChanged(GameState::Init));
}

#[test]
fn channels_taken_twice_are_empty() {
    let mut wiring = ChannelWiring::new();
    wiring.wire(OBJ1, OBJ2);
    let first = wiring.channels(OBJ2);
    assert!(first.1.is_some());
    let second = wiring.channels(OBJ2);
    assert!(second.0.is_none());
    assert!(second.1.is_none());
    // an identity never wired gets nothing, and no error
    let none = wiring.channels(OBJ3);
    assert!(none.0.is_none() && none.1.is_none());
}

#[test]
fn fan_in_shares_one_channel() {
    let mut wiring = ChannelWiring::new();
    wiring.wire(OBJ1, OBJ3);
    wiring.wire(OBJ2, OBJ3);
    let (s1, _) = wiring.channels(OBJ1);
    let (s2, _) = wiring.channels(OBJ2);
    let (_, r3) = wiring.channels(OBJ3);
    let s1 = s1.unwrap();
    let s2 = s2.unwrap();
    let r3 = r3.unwrap();
    assert_eq!(s1[0], s2[0]);
    assert_eq!(s1[0].channel, r3.channel);
    let mut net = wiring.into_network();
    assert_eq!(net.channel_count(), 1);
    net.send(&s1[0], ChannelMessage::Flagged(true));
    net.send(&s2[0], ChannelMessage::Clear);
    assert_eq!(net.queued(r3.channel), 2);
    assert_eq!(
        net.receive_all(&r3),
        vec![ChannelMessage::Flagged(true), ChannelMessage::Clear]
    );
    assert_eq!(net.queued(r3.channel), 0);
}

#[test]
fn mailbox_drains_in_arrival_order_and_hands_over_once() {
    let mut wiring = ChannelWiring::new();
    wiring.wire(OBJ1, OBJ2);
    wiring.wire(OBJ2, OBJ3);
    wiring.wire(OBJ2, TEST_WIRING);
    let (s1, _) = wiring.channels(OBJ1);
    let mut obj2 = Exchange::new_from_wiring(&mut wiring, OBJ2);
    let (_, r3) = wiring.channels(OBJ3);
    let (_, r0) = wiring.channels(TEST_WIRING);
    let tx = s1.unwrap()[0];
    let mut net = wiring.into_network();
    net.send(&tx, ChannelMessage::Flagged(true));
    net.send(&tx, ChannelMessage::Flagged(false));
    assert_eq!(obj2.pull(&mut net), 2);
    assert_eq!(obj2.pull(&mut net), 0);
    let got = obj2.get_messages();
    assert_eq!(got, vec![ChannelMessage::Flagged(true), ChannelMessage::Flagged(false)]);
    assert!(obj2.get_messages().is_empty());
    obj2.push_message(&mut net, ChannelMessage::Clear);
    assert_eq!(net.receive_all(r3.as_ref().unwrap()), vec![ChannelMessage::Clear]);
    assert_eq!(net.receive_all(r0.as_ref().unwrap()), vec![ChannelMessage::Clear]);
    obj2.push_message_to_index(&mut net, ChannelMessage::TestMessage, 1);
    assert!(net.receive_all(r3.as_ref().unwrap()).is_empty());
    assert_eq!(net.receive_all(r0.as_ref().unwrap()), vec![ChannelMessage::TestMessage]);
    let mut others = Vec::new();
    obj2.replace_senders(&mut others);
    assert_eq!(others.len(), 2);
    assert!(obj2.clone_senders().is_empty());
}
