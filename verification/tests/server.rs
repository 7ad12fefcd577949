use blockchain_simulator::framing::FrameError;
use blockchain_simulator::server::ledger_wrapper::clock_reading;
use blockchain_simulator::server::{
    address_with_port, names_port, Callback, ConnectionIds, LedgerWrapper, NullCallback,
    PeerConnection, ProtocolError, ReadEvent, Step, FIRST_CONNECTION_ID,
};
use blockchain_simulator::{
    Epoch, Message, TestOperation, Transaction, TxPayload, DEFAULT_BLOCKCHAIN_PORT,
};
use std::cell::Cell;

type Wrapper = LedgerWrapper<TestOperation, String>;

fn transaction(source: u64) -> Transaction<TestOperation> {
    Transaction::from_parts(
        source,
        TxPayload::Operation { operation: TestOperation::Empty {} },
        vec![source as u8; 3],
    )
}

fn sorted_ids(recipients: &std::collections::HashMap<u32, String>) -> Vec<u32> {
    let mut ids: Vec<u32> = recipients.keys().copied().collect();
    ids.sort();
    ids
}

struct Counting {
    verdict: bool,
    validated: Cell<u32>,
    notified: Cell<u32>,
}

impl Counting {
    fn new(verdict: bool) -> Counting {
        Counting { verdict, validated: Cell::new(0), notified: Cell::new(0) }
    }
}

impl Callback<TestOperation> for Counting {
    fn validate_transaction(&self, _tx: &Transaction<TestOperation>) -> bool {
        assert_eq!(self.notified.get(), self.validated.get() * u32::from(self.verdict));
        self.validated.set(self.validated.get() + 1);
        self.verdict
    }

    fn notify_new_transaction(&self, _tx: &Transaction<TestOperation>) {
        self.notified.set(self.notified.get() + 1);
    }
}

#[test]
fn wrapper_starts_without_epochs_or_peers() {
    let mut wrapper = Wrapper::new(1_000_000, 100);
    assert_eq!(wrapper.num_epochs(), 0);
    assert!(wrapper.can_throttle());
    assert!(wrapper.can_start_epoch());
    let backlog = wrapper.register_peer(1, "first".to_string());
    assert!(backlog.is_empty());
}

#[test]
fn acceptances_are_a_millisecond_apart_at_a_thousand_per_second() {
    let mut wrapper = Wrapper::new(1_000_000, 100);
    let now = 250_000;
    let first_wait = wrapper.throttle_at(now);
    let second_wait = wrapper.throttle_at(now);
    let first_accepted = now + first_wait;
    let second_accepted = now + second_wait;
    assert_eq!(first_accepted, 1_000_000);
    assert_eq!(second_accepted, 2_000_000);
    assert!(second_accepted - first_accepted >= 1_000_000);
}

#[test]
fn throttle_waits_for_the_rest_of_the_interval_only() {
    let mut wrapper = Wrapper::new(1_000_000, 0);
    assert_eq!(wrapper.throttle_at(5_000_000), 0);
    assert_eq!(wrapper.throttle_at(5_000_001), 999_999);
    assert_eq!(wrapper.throttle_at(6_999_999), 1);
    assert_eq!(wrapper.throttle_at(8_000_000), 0);
    assert_eq!(wrapper.throttle_at(9_000_000), 0);
    assert_eq!(wrapper.throttle_at(3), 9_999_997);
}

#[test]
fn throttle_without_interval_never_waits() {
    let mut wrapper = Wrapper::new(0, 0);
    assert_eq!(wrapper.throttle_at(0), 0);
    assert_eq!(wrapper.throttle_at(10), 0);
    assert_eq!(wrapper.throttle_at(10), 0);
    assert_eq!(wrapper.throttle_at(4), 6);
}

#[test]
fn throttle_reads_the_clock() {
    let minute: u64 = 60_000_000_000;
    let mut wrapper = Wrapper::new(minute, 0);
    let before = wrapper.now();
    let first_wait = wrapper.throttle();
    let second_wait = wrapper.throttle();
    let after = wrapper.now();
    assert!(before <= after);
    assert!(after < minute);
    assert!(first_wait <= minute);
    assert!(first_wait >= minute - after);
    assert!(second_wait > first_wait);
    assert!(second_wait <= 2 * minute);
    assert!(second_wait >= 2 * minute - after);
}

#[test]
fn clock_shows_what_fits() {
    assert_eq!(clock_reading(0), 0);
    assert_eq!(clock_reading(1_500_000_000), 1_500_000_000);
    assert_eq!(clock_reading(u128::from(u64::MAX)), u64::MAX);
    assert_eq!(clock_reading(u128::from(u64::MAX) + 1), u64::MAX);
    assert_eq!(clock_reading(u128::MAX), u64::MAX);
}

#[test]
fn clock_runs_out_only_at_its_end() {
    let mut wrapper = Wrapper::new(u64::MAX, 0);
    assert!(wrapper.can_throttle());
    assert_eq!(wrapper.throttle_at(1), u64::MAX - 1);
    assert!(!wrapper.can_throttle());
}

#[test]
fn epochs_are_numbered_from_zero() {
    let mut wrapper = Wrapper::new(0, 100);
    for expected in 0..4u32 {
        let broadcast = wrapper.start_new_epoch_at(1_000 + i64::from(expected));
        assert_eq!(broadcast.delay_ms, 0);
        assert!(broadcast.recipients.is_empty());
        match broadcast.message {
            Message::NewEpochStarted { identifier, timestamp } => {
                assert_eq!(identifier, expected);
                assert_eq!(timestamp, 1_000 + i64::from(expected));
            }
            _ => panic!("wrong message"),
        }
    }
    assert_eq!(wrapper.num_epochs(), 4);
    assert_eq!(wrapper.get_epoch(2).get_timestamp(), 1_002);
    assert_eq!(wrapper.get_epoch(2).size(), 0);
    assert!(wrapper.can_start_epoch());
}

#[test]
fn new_epoch_carries_the_present_time() {
    let mut wrapper = Wrapper::new(0, 100);
    let before = std::time::SystemTime::now()
        .duration_since(std::time::UNIX_EPOCH)
        .unwrap()
        .as_secs() as i64;
    let broadcast = wrapper.start_new_epoch();
    let after = std::time::SystemTime::now()
        .duration_since(std::time::UNIX_EPOCH)
        .unwrap()
        .as_secs() as i64;
    match broadcast.message {
        Message::NewEpochStarted { identifier, timestamp } => {
            assert_eq!(identifier, 0);
            assert!(before <= timestamp && timestamp <= after);
            assert_eq!(wrapper.get_epoch(0).get_timestamp(), timestamp);
        }
        _ => panic!("wrong message"),
    }
    assert_eq!(wrapper.num_epochs(), 1);
}

#[test]
fn inserted_transaction_is_broadcast_after_the_latency() {
    let mut wrapper = Wrapper::new(0, 250);
    wrapper.start_new_epoch_at(1);
    wrapper.register_peer(4, "four".to_string());
    wrapper.register_peer(9, "nine".to_string());
    wrapper.start_new_epoch_at(2);

    let broadcast = wrapper.insert(transaction(17));
    assert_eq!(broadcast.delay_ms, 250);
    assert_eq!(sorted_ids(&broadcast.recipients), vec![4, 9]);
    assert_eq!(broadcast.recipients[&4], "four");
    assert_eq!(broadcast.recipients[&9], "nine");
    match broadcast.message {
        Message::LedgerUpdate { transaction } => {
            assert_eq!(*transaction.get_source(), 17);
            assert_eq!(transaction.get_signature(), &vec![17, 17, 17]);
        }
        _ => panic!("wrong message"),
    }
    assert_eq!(wrapper.get_epoch(0).size(), 0);
    assert_eq!(wrapper.get_epoch(1).size(), 1);
    assert_eq!(*wrapper.get_epoch(1).get_transactions()[0].get_source(), 17);
}

#[test]
fn joining_peer_gets_every_epoch_in_order() {
    let mut wrapper = Wrapper::new(0, 0);
    wrapper.start_new_epoch_at(10);
    wrapper.insert(transaction(1));
    wrapper.insert(transaction(2));
    wrapper.start_new_epoch_at(20);
    wrapper.start_new_epoch_at(30);
    wrapper.insert(transaction(3));

    let backlog = wrapper.register_peer(5, "five".to_string());
    let seen: Vec<(u32, i64, Vec<u64>)> = backlog
        .iter()
        .map(|message| match message {
            Message::SyncEpoch { identifier, epoch } => (
                *identifier,
                epoch.get_timestamp(),
                epoch.get_transactions().iter().map(|tx| *tx.get_source()).collect(),
            ),
            _ => panic!("wrong message"),
        })
        .collect();
    assert_eq!(seen, vec![(0, 10, vec![1, 2]), (1, 20, vec![]), (2, 30, vec![3])]);
}

#[test]
fn registry_follows_registrations() {
    let mut wrapper = Wrapper::new(0, 0);
    wrapper.register_peer(1, "one".to_string());
    wrapper.register_peer(2, "two".to_string());
    wrapper.register_peer(1, "one again".to_string());
    let broadcast = wrapper.start_new_epoch_at(0);
    assert_eq!(sorted_ids(&broadcast.recipients), vec![1, 2]);
    assert_eq!(broadcast.recipients[&1], "one again");

    wrapper.unregister_peer(1);
    wrapper.unregister_peer(7);
    let broadcast = wrapper.start_new_epoch_at(0);
    assert_eq!(sorted_ids(&broadcast.recipients), vec![2]);

    wrapper.unregister_peer(2);
    let broadcast = wrapper.insert(transaction(1));
    assert!(broadcast.recipients.is_empty());
}

#[test]
fn peer_that_joins_before_a_rotation_is_told_of_the_new_epoch() {
    let mut wrapper = Wrapper::new(0, 0);
    wrapper.start_new_epoch_at(1);
    let backlog = wrapper.register_peer(3, "joining".to_string());
    let rotation = wrapper.start_new_epoch_at(2);

    let synced: Vec<u32> = backlog
        .iter()
        .map(|message| match message {
            Message::SyncEpoch { identifier, .. } => *identifier,
            _ => panic!("wrong message"),
        })
        .collect();
    assert_eq!(synced, vec![0]);
    assert!(rotation.recipients.contains_key(&3));
    assert!(matches!(rotation.message, Message::NewEpochStarted { identifier: 1, timestamp: 2 }));
}

#[test]
fn peer_that_joins_after_a_rotation_finds_the_new_epoch_in_its_backlog() {
    let mut wrapper = Wrapper::new(0, 0);
    wrapper.start_new_epoch_at(1);
    let rotation = wrapper.start_new_epoch_at(2);
    let backlog = wrapper.register_peer(3, "joining".to_string());

    let synced: Vec<u32> = backlog
        .iter()
        .map(|message| match message {
            Message::SyncEpoch { identifier, .. } => *identifier,
            _ => panic!("wrong message"),
        })
        .collect();
    assert_eq!(synced, vec![0, 1]);
    assert!(!rotation.recipients.contains_key(&3));
}

#[test]
fn submitted_transaction_passes_the_null_callback() {
    let (connection, _socket) = PeerConnection::new(8);
    assert_eq!(connection.identifier(), 8);
    let outcome = connection
        .handle_message(&NullCallback {}, Message::TransactionRequest { transaction: transaction(5) });
    match outcome {
        Ok(Some(tx)) => assert_eq!(*tx.get_source(), 5),
        _ => panic!("transaction was not passed on"),
    }
}

#[test]
fn callback_is_told_of_valid_transactions_only() {
    let (connection, _socket) = PeerConnection::new(8);

    let accepting = Counting::new(true);
    for source in 0..3 {
        let outcome = connection.handle_message(
            &accepting,
            Message::TransactionRequest { transaction: transaction(source) },
        );
        assert!(matches!(outcome, Ok(Some(_))));
    }
    assert_eq!(accepting.validated.get(), 3);
    assert_eq!(accepting.notified.get(), 3);

    let rejecting = Counting::new(false);
    let outcome = connection
        .handle_message(&rejecting, Message::TransactionRequest { transaction: transaction(1) });
    assert!(matches!(outcome, Ok(None)));
    assert_eq!(rejecting.validated.get(), 1);
    assert_eq!(rejecting.notified.get(), 0);
}

#[test]
fn server_messages_from_a_peer_are_a_protocol_fault() {
    let (connection, _socket) = PeerConnection::new(8);
    let callback = Counting::new(true);
    let unexpected: Vec<Message<TestOperation>> = vec![
        Message::SyncEpoch { identifier: 0, epoch: Epoch::new(0) },
        Message::NewEpochStarted { identifier: 0, timestamp: 0 },
        Message::LedgerUpdate { transaction: transaction(1) },
    ];
    for message in unexpected {
        assert!(!message.is_from_peer());
        let outcome = connection.handle_message(&callback, message);
        assert!(matches!(outcome, Err(ProtocolError::UnexpectedMessage)));
    }
    assert_eq!(callback.validated.get(), 0);
    assert!(Message::TransactionRequest { transaction: transaction(1) }.is_from_peer());
}

#[test]
fn judged_transaction_goes_on_only_if_valid() {
    assert!(matches!(PeerConnection::judged(transaction(1), true), Some(_)));
    assert!(matches!(PeerConnection::judged(transaction(1), false), None));
}

#[test]
fn read_loop_goes_on_while_the_peer_keeps_to_the_protocol() {
    let mut wrapper = Wrapper::new(0, 0);
    let (connection, mut socket) = PeerConnection::new(6);
    wrapper.register_peer(6, "six".to_string());
    wrapper.register_peer(7, "seven".to_string());
    assert!(socket.active());

    let step = connection.run(
        &mut socket,
        &mut wrapper,
        &NullCallback {},
        ReadEvent::Received(Message::TransactionRequest { transaction: transaction(3) }),
    );
    match step {
        Step::Submit(tx) => assert_eq!(*tx.get_source(), 3),
        _ => panic!("transaction was not passed on"),
    }
    let step = connection.run(
        &mut socket,
        &mut wrapper,
        &Counting::new(false),
        ReadEvent::Received(Message::TransactionRequest { transaction: transaction(3) }),
    );
    assert!(matches!(step, Step::Skip));
    assert!(socket.active());
    let broadcast = wrapper.start_new_epoch_at(0);
    assert_eq!(sorted_ids(&broadcast.recipients), vec![6, 7]);
}

#[test]
fn read_loop_ends_on_a_protocol_fault() {
    let mut wrapper = Wrapper::new(0, 0);
    let (connection, mut socket) = PeerConnection::new(6);
    wrapper.register_peer(6, "six".to_string());
    wrapper.register_peer(7, "seven".to_string());

    let step = connection.run(
        &mut socket,
        &mut wrapper,
        &NullCallback {},
        ReadEvent::Received(Message::NewEpochStarted { identifier: 0, timestamp: 0 }),
    );
    assert!(matches!(step, Step::Stop));
    assert!(!socket.active());
    let broadcast = wrapper.start_new_epoch_at(0);
    assert_eq!(sorted_ids(&broadcast.recipients), vec![7]);

    let step = connection.run(
        &mut socket,
        &mut wrapper,
        &NullCallback {},
        ReadEvent::Received(Message::TransactionRequest { transaction: transaction(3) }),
    );
    assert!(matches!(step, Step::Stop));
    assert!(!socket.active());
}

#[test]
fn read_loop_ends_when_reading_fails() {
    let mut wrapper = Wrapper::new(0, 0);
    let (connection, mut socket) = PeerConnection::new(6);
    wrapper.register_peer(6, "six".to_string());
    let step = connection.run(&mut socket, &mut wrapper, &NullCallback {}, ReadEvent::Failed);
    assert!(matches!(step, Step::Stop));
    assert!(!socket.active());
    wrapper.start_new_epoch_at(0);
    let broadcast = wrapper.insert(transaction(1));
    assert!(broadcast.recipients.is_empty());
}

#[test]
fn connection_frames_what_it_sends_and_unframes_what_it_receives() {
    let (connection, mut socket) = PeerConnection::new(2);
    let frame = connection.send(&[10, 20, 30]).unwrap();
    assert_eq!(frame, vec![0, 0, 0, 3, 10, 20, 30]);
    assert_eq!(connection.send(&vec![0u8; 8 * 1024 * 1024 + 1]), Err(FrameError::TooLong));

    assert_eq!(socket.next_frame(), Ok(None));
    socket.receive(&frame[..5]);
    assert_eq!(socket.next_frame(), Ok(None));
    socket.receive(&frame[5..]);
    socket.receive(&[0, 0, 0, 0]);
    assert_eq!(socket.next_frame(), Ok(Some(vec![10, 20, 30])));
    assert_eq!(socket.next_frame(), Ok(Some(vec![])));
    assert_eq!(socket.next_frame(), Ok(None));
    socket.receive(&[1, 0, 0, 0]);
    assert_eq!(socket.next_frame(), Err(FrameError::TooLong));
    assert!(socket.active());
}

#[test]
fn address_without_port_gets_the_default_port() {
    assert_eq!(DEFAULT_BLOCKCHAIN_PORT, 8080);
    assert_eq!(address_with_port("0.0.0.0", DEFAULT_BLOCKCHAIN_PORT), "0.0.0.0:8080");
    assert_eq!(address_with_port("localhost", 1), "localhost:1");
    assert_eq!(address_with_port("h", 0), "h:0");
    assert_eq!(address_with_port("h", 9), "h:9");
    assert_eq!(address_with_port("h", 10), "h:10");
    assert_eq!(address_with_port("h", 99), "h:99");
    assert_eq!(address_with_port("h", 100), "h:100");
    assert_eq!(address_with_port("h", 1000), "h:1000");
    assert_eq!(address_with_port("h", 10000), "h:10000");
    assert_eq!(address_with_port("h", 40302), "h:40302");
    assert_eq!(address_with_port("h", 65535), "h:65535");
    assert_eq!(address_with_port("", 8080), ":8080");
    assert_eq!(address_with_port("b\u{fc}cher.example", 8080), "b\u{fc}cher.example:8080");
}

#[test]
fn address_with_port_stays_as_it_is() {
    assert_eq!(address_with_port("localhost:9000", 8080), "localhost:9000");
    assert_eq!(address_with_port("[::1]:9000", 8080), "[::1]:9000");
    assert_eq!(address_with_port(":", 8080), ":");
    assert_eq!(address_with_port("::1", 8080), "::1");
    assert!(names_port("localhost:9000"));
    assert!(names_port("a:"));
    assert!(!names_port("localhost"));
    assert!(!names_port(""));
}

#[test]
fn connection_ids_count_up_from_one() {
    assert_eq!(FIRST_CONNECTION_ID, 1);
    let mut ids = ConnectionIds::new();
    assert!(ids.has_next());
    assert_eq!(ids.allocate(), 1);
    assert_eq!(ids.allocate(), 2);
    assert_eq!(ids.allocate(), 3);
    assert!(ids.has_next());
}
