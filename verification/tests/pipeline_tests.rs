use vanity::address::Address;
use vanity::pipeline::{drain, effective_workers, Pipeline, SlotPool, SourceAction};
use vanity::selector::Selector;
use vanity::sink::Sink;
use vanity::wallet::DerivedWallet;

fn stub_wallet(token: u64) -> DerivedWallet {
    let c = b'0' + (token as u8);
    DerivedWallet {
        address: Address::from_data(vec![c; 40]),
        phrase: format!("phrase-{}", token),
    }
}

#[test]
fn slot_pool_hands_out_each_token_once() {
    let mut pool = SlotPool::new(3);
    let a = pool.acquire().unwrap();
    let b = pool.acquire().unwrap();
    let c = pool.acquire().unwrap();
    assert!(a != b && b != c && a != c);
    assert!(a < 3 && b < 3 && c < 3);
    assert_eq!(pool.acquire(), None);
    pool.release(b);
    assert_eq!(pool.acquire(), Some(b));
}

#[test]
fn in_flight_never_exceeds_worker_count() {
    let mut p = Pipeline::new(2);
    assert_eq!(p.source_offer(1), SourceAction::Emitted);
    assert_eq!(p.source_offer(2), SourceAction::Emitted);
    assert!(p.dispatch().is_some());
    assert!(p.dispatch().is_some());
    assert_eq!(p.inflight.len(), 2);
    // both slots are busy: nothing more can be dispatched
    assert_eq!(p.source_offer(3), SourceAction::Emitted);
    assert_eq!(p.dispatch(), None);
    assert_eq!(p.inflight.len(), 2);
    assert!(p.inflight.len() <= 2);
    // a completion frees a slot, and the waiting candidate goes in flight
    let w = p.complete(0, stub_wallet(1));
    assert_eq!(w.phrase, "phrase-1");
    assert!(p.dispatch().is_some());
    assert_eq!(p.inflight.len(), 2);
}

#[test]
fn cancelled_source_emits_nothing_and_closes() {
    let mut p = Pipeline::new(2);
    assert_eq!(p.source_offer(1), SourceAction::Emitted);
    assert!(p.dispatch().is_some());
    p.cancel();
    p.cancel(); // idempotent
    let queued_before = p.intake.len();
    assert_eq!(p.source_offer(2), SourceAction::Closed);
    assert!(p.source_closed);
    assert_eq!(p.intake.len(), queued_before);
    // the in-flight derivation still drains and its result is delivered
    let mut sink = Sink::new(Selector::MatchAll);
    let w = p.complete(0, stub_wallet(1));
    let outcome = sink.process(w);
    assert_eq!(outcome.matched, Some(1));
    assert_eq!(p.inflight.len(), 0);
    assert_eq!(sink.matched.len(), 1);
    assert_eq!(sink.matched[0].phrase, "phrase-1");
}

#[test]
fn five_candidates_give_five_matches_correctly_paired() {
    // two workers, five deterministic candidates, completions out of order
    let mut p = Pipeline::new(2);
    let mut sink = Sink::new(Selector::MatchAll);
    let mut next_candidate: u64 = 1;
    let mut emitted: usize = 0;
    let mut match_reports: usize = 0;
    while emitted < 5 || p.intake.len() > 0 || p.inflight.len() > 0 {
        // the source emits exactly five candidates while there is room
        if emitted < 5 && p.intake.len() < 2 {
            assert_eq!(p.source_offer(next_candidate), SourceAction::Emitted);
            next_candidate += 1;
            emitted += 1;
            continue;
        }
        // dispatch whatever fits
        if p.dispatch().is_some() {
            continue;
        }
        // complete the most recently dispatched entry first: out of
        // submission order whenever two derivations are in flight
        let i = p.inflight.len() - 1;
        let token = p.inflight[i].candidate;
        let delivered = p.complete(i, stub_wallet(token));
        let outcome = sink.process(delivered);
        assert_eq!(outcome.matched, Some(1));
        match_reports += 1;
    }
    // after the fifth candidate the source signals end of sequence
    p.cancel();
    assert_eq!(p.source_offer(99), SourceAction::Closed);
    assert_eq!(match_reports, 5);
    assert_eq!(sink.matched.len(), 5);
    // every match pairs the address with the phrase of its own candidate
    let mut seen = [false; 5];
    for w in &sink.matched {
        let token = (w.address.data[0] - b'0') as u64;
        assert_eq!(w.phrase, format!("phrase-{}", token));
        for &b in &w.address.data {
            assert_eq!(b, w.address.data[0]);
        }
        assert!((1..=5).contains(&token));
        assert!(!seen[(token - 1) as usize]);
        seen[(token - 1) as usize] = true;
    }
}

#[test]
fn drain_after_cancellation_delivers_all_in_flight() {
    let mut p = Pipeline::new(3);
    assert_eq!(p.source_offer(1), SourceAction::Emitted);
    assert_eq!(p.source_offer(2), SourceAction::Emitted);
    assert!(p.dispatch().is_some());
    assert!(p.dispatch().is_some());
    p.cancel();
    assert_eq!(p.source_offer(9), SourceAction::Closed);
    assert_eq!(p.inflight.len(), 2);
    let mut sink = Sink::new(Selector::MatchAll);
    drain(&mut p, &mut sink, vec![stub_wallet(1), stub_wallet(2)]);
    assert_eq!(p.inflight.len(), 0);
    assert_eq!(p.slots.free.len(), 3);
    assert_eq!(sink.matched.len(), 2);
    assert_eq!(sink.matched[0].phrase, "phrase-1");
    assert_eq!(sink.matched[1].phrase, "phrase-2");
}

#[test]
fn drain_reports_only_selector_hits_in_order() {
    let mut p = Pipeline::new(3);
    for token in 1..=3u64 {
        assert_eq!(p.source_offer(token), SourceAction::Emitted);
        assert!(p.dispatch().is_some());
    }
    // stub addresses repeat one digit, so "2222" picks out token 2
    let mut sink = Sink::new(Selector::PrefixMatch { prefix: b"2222".to_vec() });
    drain(&mut p, &mut sink, vec![stub_wallet(1), stub_wallet(2), stub_wallet(3)]);
    assert_eq!(p.inflight.len(), 0);
    assert_eq!(sink.matched.len(), 1);
    assert_eq!(sink.matched[0].phrase, "phrase-2");
    // one miss came after the match, so the rolling count stands at one
    assert_eq!(sink.count, 1);
}

#[test]
fn sink_counts_and_resets_on_match() {
    let mut sink = Sink::new(Selector::PrefixMatch { prefix: b"dead".to_vec() });
    let miss = DerivedWallet {
        address: Address::from_data(vec![b'b'; 40]),
        phrase: "miss".to_string(),
    };
    let o1 = sink.process(miss);
    assert_eq!(o1.matched, None);
    assert!(!o1.progress);
    assert_eq!(sink.count, 1);
    let mut hit_data = vec![b'b'; 40];
    hit_data[0] = b'd';
    hit_data[1] = b'e';
    hit_data[2] = b'a';
    hit_data[3] = b'd';
    let hit = DerivedWallet { address: Address::from_data(hit_data), phrase: "hit".to_string() };
    let o2 = sink.process(hit);
    assert_eq!(o2.matched, Some(2));
    assert_eq!(sink.count, 0);
    assert_eq!(sink.matched.len(), 1);
    assert_eq!(sink.matched[0].phrase, "hit");
}

#[test]
fn sink_marks_every_thousandth_wallet() {
    let mut sink = Sink::new(Selector::PrefixMatch { prefix: b"dead".to_vec() });
    for i in 1..=1000u32 {
        let w = DerivedWallet {
            address: Address::from_data(vec![b'b'; 40]),
            phrase: format!("w{}", i),
        };
        let outcome = sink.process(w);
        assert_eq!(outcome.progress, i % 1000 == 0);
        assert_eq!(outcome.matched, None);
    }
    assert_eq!(sink.count, 1000);
}

#[test]
fn worker_count_defaults_to_one_below_parallelism() {
    assert_eq!(effective_workers(0, 8), 7);
    assert_eq!(effective_workers(0, 2), 1);
    assert_eq!(effective_workers(4, 8), 4);
    assert_eq!(effective_workers(1, 1), 1);
}
