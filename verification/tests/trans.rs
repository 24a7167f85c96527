use tokio_krpc::codec::KId;
use tokio_krpc::rpc::KTransId;
use tokio_krpc::serde_extra::socket_addr::SocketAddr;
use tokio_krpc::trans::KTrans;

type Trans = KTrans<u32>;

#[test]
pub fn test_trans_mgr() {
    let mut trans = Trans::new();

    let a1 = SocketAddr::v4(0, 0, 0, 0, 1234);
    let a2 = SocketAddr::v4(127, 0, 0, 1, 6881);

    let t1 = trans.start(a1, 1234);
    assert_eq!(t1, KId(a1, Some(KTransId(vec![0, 1]))));

    let t2 = trans.start(a2, 567);
    assert_eq!(t2, KId(a2, Some(KTransId(vec![0, 2]))));

    let t3 = trans.start(a1, 123);
    assert_eq!(t3, KId(a1, Some(KTransId(vec![0, 3]))));

    let d1 = trans.end(&t1);
    assert_eq!(d1, Some(1234));

    let t4 = KId(a2, Some(KTransId(vec![0, 4])));
    let d4 = trans.end(&t4);
    assert_eq!(d4, None);

    let d3 = trans.end(&t3);
    assert_eq!(d3, Some(123));

    let t2 = KId(a2, Some(KTransId(vec![0, 2])));
    let d2 = trans.end(&t2);
    assert_eq!(d2, Some(567));
}

#[test]
fn each_start_is_ended_once() {
    let mut trans = Trans::new();
    let peer = SocketAddr::v4(10, 0, 0, 1, 6881);
    assert_eq!(trans.active(), 0);
    let ids: Vec<KId> = (0..10u32).map(|n| trans.start(peer, n)).collect();
    assert_eq!(trans.active(), 10);
    for (n, id) in ids.iter().enumerate() {
        assert_eq!(trans.end(id), Some(n as u32));
        assert_eq!(trans.end(id), None);
        assert_eq!(trans.active(), 9 - n);
    }
    assert_eq!(trans.active(), 0);
}

#[test]
fn end_of_unknown_or_malformed_keys_gives_nothing() {
    let mut trans = Trans::new();
    let peer = SocketAddr::v4(10, 0, 0, 1, 6881);
    let other = SocketAddr::v4(10, 0, 0, 2, 6881);
    let id = trans.start(peer, 7);
    assert_eq!(id, KId(peer, Some(KTransId(vec![0, 1]))));

    assert_eq!(trans.end(&KId(peer, None)), None);
    assert_eq!(trans.end(&KId(peer, Some(KTransId(vec![])))), None);
    assert_eq!(trans.end(&KId(peer, Some(KTransId(vec![1])))), None);
    assert_eq!(trans.end(&KId(peer, Some(KTransId(vec![0, 0, 1])))), None);
    assert_eq!(trans.end(&KId(peer, Some(KTransId(vec![1, 0])))), None);
    assert_eq!(trans.end(&KId(other, Some(KTransId(vec![0, 1])))), None);
    assert_eq!(trans.active(), 1);
    assert_eq!(trans.end(&id), Some(7));
    assert_eq!(trans.active(), 0);
}

#[test]
fn transaction_numbers_are_big_endian_and_wrap() {
    let mut trans = Trans::new();
    let peer = SocketAddr::v4(10, 0, 0, 1, 6881);
    let mut last = KId(peer, None);
    for n in 1..=0xffffu32 {
        last = trans.start(peer, n);
        if n == 0x0102 {
            assert_eq!(last, KId(peer, Some(KTransId(vec![1, 2]))));
        }
        assert_eq!(trans.end(&last), Some(n));
    }
    assert_eq!(last, KId(peer, Some(KTransId(vec![0xff, 0xff]))));
    let wrapped = trans.start(peer, 0);
    assert_eq!(wrapped, KId(peer, Some(KTransId(vec![0, 0]))));
    let first = trans.start(peer, 1);
    assert_eq!(first, KId(peer, Some(KTransId(vec![0, 1]))));
    assert_eq!(trans.active(), 2);
}

#[test]
fn a_start_on_a_pending_number_replaces_the_entry() {
    let mut trans = Trans::new();
    let peer = SocketAddr::v4(10, 0, 0, 1, 6881);
    let first = trans.start(peer, 1);
    for n in 0..0xffffu32 {
        let id = trans.start(peer, 100 + n);
        if n < 0xfffe {
            assert_eq!(trans.end(&id), Some(100 + n));
        }
    }
    // the counter is back at 1: the old entry is replaced, not doubled
    let again = trans.start(peer, 9);
    assert_eq!(again, first);
    assert_eq!(trans.active(), 2);
    assert_eq!(trans.end(&first), Some(9));
    assert_eq!(trans.end(&first), None);
    assert_eq!(trans.active(), 1);
}

#[test]
fn a_second_end_gives_nothing_after_other_starts_and_ends() {
    let mut trans = Trans::new();
    let peer = SocketAddr::v4(10, 0, 0, 1, 6881);
    let other = SocketAddr::v4(10, 0, 0, 2, 6881);
    let id = trans.start(peer, 7);
    // other transactions come and go while this one is pending
    let mut pending = Vec::new();
    for n in 0..1000u32 {
        let with = if n % 2 == 0 { peer } else { other };
        pending.push((trans.start(with, n), n));
        if n % 3 == 0 {
            let (ended, data) = pending.remove(0);
            assert_eq!(trans.end(&ended), Some(data));
        }
    }
    assert_eq!(trans.end(&id), Some(7));
    // and after it was ended: all but one of the numbers are given again
    for n in 0..(0xffffu32 - 1000) {
        let ended = trans.start(peer, n);
        assert_ne!(ended, id);
        assert_eq!(trans.end(&ended), Some(n));
    }
    let count = trans.active();
    assert_eq!(trans.end(&id), None);
    assert_eq!(trans.active(), count);
    // the next start is given the number of the first again
    assert_eq!(trans.start(peer, 8), id);
    assert_eq!(trans.active(), count + 1);
}
