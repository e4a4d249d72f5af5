use certflow::listener::{
    after_first_a, after_first_b, draw_side, first_side, join_a, join_b, JoinedListener,
    JoinedStream, Listener, Next, Polled, Side,
};
use certflow::logging::LogHandler;

#[test]
fn coin_decides_the_first_side() {
    assert_eq!(first_side(true), Side::A);
    assert_eq!(first_side(false), Side::B);
}

#[test]
fn both_sides_are_drawn() {
    let mut a = 0;
    let mut b = 0;
    for _ in 0..400 {
        match draw_side() {
            Side::A => a += 1,
            Side::B => b += 1,
        }
    }
    assert!(a > 0);
    assert!(b > 0);
    assert_eq!(a + b, 400);
}

#[test]
fn answers_of_the_first_listener_are_marked() {
    assert_eq!(join_a::<u8, char>(Polled::Conn(7)), Polled::Conn(JoinedStream::A(7)));
    assert_eq!(join_a::<u8, char>(Polled::Failed), Polled::Failed);
    assert_eq!(join_a::<u8, char>(Polled::Closed), Polled::Closed);
    assert_eq!(join_a::<u8, char>(Polled::Pending), Polled::Pending);
}

#[test]
fn answers_of_the_second_listener_are_marked() {
    assert_eq!(join_b::<u8, char>(Polled::Conn('x')), Polled::Conn(JoinedStream::B('x')));
    assert_eq!(join_b::<u8, char>(Polled::Failed), Polled::Failed);
    assert_eq!(join_b::<u8, char>(Polled::Closed), Polled::Closed);
    assert_eq!(join_b::<u8, char>(Polled::Pending), Polled::Pending);
}

#[test]
fn pending_first_listener_hands_over_to_the_other() {
    assert_eq!(after_first_a::<u8, char>(Polled::Pending), Next::Poll(Side::B));
    assert_eq!(after_first_b::<u8, char>(Polled::Pending), Next::Poll(Side::A));
}

#[test]
fn any_other_answer_of_the_first_listener_is_final() {
    assert_eq!(
        after_first_a::<u8, char>(Polled::Conn(1)),
        Next::Return(Polled::Conn(JoinedStream::A(1)))
    );
    assert_eq!(after_first_a::<u8, char>(Polled::Failed), Next::Return(Polled::Failed));
    assert_eq!(after_first_a::<u8, char>(Polled::Closed), Next::Return(Polled::Closed));
    assert_eq!(
        after_first_b::<u8, char>(Polled::Conn('c')),
        Next::Return(Polled::Conn(JoinedStream::B('c')))
    );
    assert_eq!(after_first_b::<u8, char>(Polled::Failed), Next::Return(Polled::Failed));
    assert_eq!(after_first_b::<u8, char>(Polled::Closed), Next::Return(Polled::Closed));
}

#[test]
fn joined_listener_keeps_both() {
    let mut joined = JoinedListener::new(1u8, "two");
    {
        let (a, b) = joined.parts_mut();
        assert_eq!(*a, 1);
        assert_eq!(*b, "two");
        *a = 5;
    }
    assert_eq!(joined.into_parts(), (5, "two"));
}

#[test]
fn joined_listeners_can_be_joined_again() {
    let joined = JoinedListener::new(1u8, 2u16).join(3u32);
    let (inner, third) = joined.into_parts();
    assert_eq!(third, 3);
    assert_eq!(inner.into_parts(), (1, 2));
}

#[test]
fn logged_status_of_a_response() {
    let log = LogHandler::default();
    assert_eq!(log.status(Some(201), true), 201);
    assert_eq!(log.status(Some(500), false), 500);
    assert_eq!(log.status(None, false), 404);
    assert_eq!(log.status(None, true), 200);
}

#[test]
fn test_joined_listener() {
    // Two connections wait, one at each listener; whichever listener is
    // drawn first, both are accepted, one after the other.
    let mut waiting_a = Some(50);
    let mut waiting_b = Some(100);
    let mut sum = 0;
    for _ in 0..2 {
        let first = draw_side();
        let next = match first {
            Side::A => after_first_a::<i32, i32>(match waiting_a.take() {
                Some(conn) => Polled::Conn(conn),
                None => Polled::Pending,
            }),
            Side::B => after_first_b::<i32, i32>(match waiting_b.take() {
                Some(conn) => Polled::Conn(conn),
                None => Polled::Pending,
            }),
        };
        let answer = match next {
            Next::Return(answer) => answer,
            Next::Poll(Side::A) => join_a(match waiting_a.take() {
                Some(conn) => Polled::Conn(conn),
                None => Polled::Pending,
            }),
            Next::Poll(Side::B) => join_b(match waiting_b.take() {
                Some(conn) => Polled::Conn(conn),
                None => Polled::Pending,
            }),
        };
        match answer {
            Polled::Conn(JoinedStream::A(conn)) => sum += conn,
            Polled::Conn(JoinedStream::B(conn)) => sum += conn,
            other => panic!("unexpected answer {:?}", other),
        }
    }
    assert_eq!(sum, 150);
}
