use deet::balancer::{
    apply_health, error_answer, is_listed, let_through, places_of, Answer, Candidate, Dialer,
    RequestError, BAD_GATEWAY, BAD_REQUEST, PAYLOAD_TOO_LARGE, TOO_MANY_REQUESTS,
};

fn servers(flags: &[bool]) -> Vec<(String, bool)> {
    flags.iter().enumerate().map(|(i, alive)| (format!("10.0.0.{}:80", i), *alive)).collect()
}

fn names(places: &[usize]) -> Vec<String> {
    places.iter().map(|i| format!("10.0.0.{}:80", i)).collect()
}

#[test]
fn the_status_codes_are_those_of_http() {
    assert_eq!(BAD_REQUEST, 400);
    assert_eq!(PAYLOAD_TOO_LARGE, 413);
    assert_eq!(TOO_MANY_REQUESTS, 429);
    assert_eq!(BAD_GATEWAY, 502);
}

#[test]
fn a_text_is_listed_when_the_list_holds_it() {
    let list = names(&[1, 3]);
    assert!(is_listed(&list, &"10.0.0.1:80".to_string()));
    assert!(is_listed(&list, &"10.0.0.3:80".to_string()));
    assert!(!is_listed(&list, &"10.0.0.2:80".to_string()));
    assert!(!is_listed(&vec![], &"10.0.0.1:80".to_string()));
}

#[test]
fn checked_servers_change_and_unchecked_ones_stay() {
    let mut upstreams = servers(&[true, true, false, false, true]);
    apply_health(&mut upstreams, &names(&[0, 2, 4]), &names(&[3, 4]));
    assert_eq!(upstreams, servers(&[false, true, false, true, true]));
}

#[test]
fn a_round_without_findings_changes_nothing() {
    let mut upstreams = servers(&[true, false]);
    apply_health(&mut upstreams, &vec![], &vec![]);
    assert_eq!(upstreams, servers(&[true, false]));
}

#[test]
fn places_are_listed_in_the_order_of_the_servers() {
    let upstreams = servers(&[true, false, false, true, true]);
    assert_eq!(places_of(&upstreams, true), vec![0, 3, 4]);
    assert_eq!(places_of(&upstreams, false), vec![1, 2]);
    assert_eq!(places_of(&vec![], true), Vec::<usize>::new());
}

#[test]
fn the_one_live_server_is_tried_first() {
    let upstreams = servers(&[false, true, false]);
    let dialer = Dialer::new(&upstreams);
    for _ in 0..20 {
        assert_eq!(dialer.candidate(), Candidate::Live { position: 0, upstream: 1 });
    }
}

#[test]
fn every_live_server_is_tried_once_and_then_the_dead_ones_in_order() {
    let upstreams = servers(&[true, false, true, true, false]);
    let mut dialer = Dialer::new(&upstreams);
    let mut tried_live = Vec::new();
    for _ in 0..3 {
        let next = dialer.candidate();
        match next {
            Candidate::Live { upstream, .. } => {
                assert!(upstreams[upstream].1);
                assert!(!tried_live.contains(&upstream));
                tried_live.push(upstream);
            },
            other => panic!("a live server was left: {:?}", other),
        }
        assert!(dialer.failed(next));
    }
    tried_live.sort();
    assert_eq!(tried_live, vec![0, 2, 3]);
    assert_eq!(dialer.candidate(), Candidate::Spare { upstream: 1 });
    assert!(!dialer.failed(Candidate::Spare { upstream: 1 }));
    assert_eq!(dialer.candidate(), Candidate::Spare { upstream: 4 });
    assert!(!dialer.failed(Candidate::Spare { upstream: 4 }));
    assert_eq!(dialer.candidate(), Candidate::Nowhere);
    assert!(!dialer.failed(Candidate::Nowhere));
    assert_eq!(dialer.candidate(), Candidate::Nowhere);
}

#[test]
fn the_pick_among_live_servers_stays_in_range() {
    let upstreams = servers(&[true; 7]);
    let dialer = Dialer::new(&upstreams);
    for _ in 0..200 {
        match dialer.candidate() {
            Candidate::Live { position, upstream } => {
                assert!(position < 7);
                assert_eq!(upstream, position);
            },
            other => panic!("seven servers are live: {:?}", other),
        }
    }
}

#[test]
fn a_candidate_that_names_no_untried_server_changes_nothing() {
    let upstreams = servers(&[true, false]);
    let mut dialer = Dialer::new(&upstreams);
    assert!(dialer.failed(Candidate::Live { position: 5, upstream: 0 }));
    assert_eq!(dialer.candidate(), Candidate::Live { position: 0, upstream: 0 });
    assert!(dialer.failed(Candidate::Live { position: 0, upstream: 0 }));
    assert!(!dialer.failed(Candidate::Spare { upstream: 1 }));
    assert!(!dialer.failed(Candidate::Spare { upstream: 1 }));
    assert_eq!(dialer.candidate(), Candidate::Nowhere);
}

#[test]
fn a_count_at_the_top_of_its_range_stays_there() {
    let mut count = usize::MAX;
    assert!(!let_through(&mut count, 10));
    assert_eq!(count, usize::MAX);
    assert!(let_through(&mut count, usize::MAX));
    assert!(let_through(&mut count, 0));
}

#[test]
fn without_servers_there_is_nowhere_to_go() {
    let dialer = Dialer::new(&vec![]);
    assert_eq!(dialer.candidate(), Candidate::Nowhere);
}

#[test]
fn no_limit_lets_everything_through_uncounted() {
    let mut count = 5;
    assert!(let_through(&mut count, 0));
    assert_eq!(count, 5);
}

#[test]
fn requests_are_let_through_up_to_the_limit() {
    let mut count = 0;
    assert!(let_through(&mut count, 2));
    assert!(let_through(&mut count, 2));
    assert_eq!(count, 2);
    assert!(!let_through(&mut count, 2));
    assert_eq!(count, 3);
    assert!(!let_through(&mut count, 2));
    assert_eq!(count, 4);
}

#[test]
fn errors_in_reading_a_request_have_their_answers() {
    assert_eq!(error_answer(RequestError::IncompleteRequest(0)), Answer::Hangup);
    assert_eq!(error_answer(RequestError::ConnectionError), Answer::Hangup);
    assert_eq!(error_answer(RequestError::IncompleteRequest(12)), Answer::Reply(400));
    assert_eq!(error_answer(RequestError::MalformedRequest), Answer::Reply(400));
    assert_eq!(error_answer(RequestError::InvalidContentLength), Answer::Reply(400));
    assert_eq!(error_answer(RequestError::ContentLengthMismatch), Answer::Reply(400));
    assert_eq!(error_answer(RequestError::RequestBodyTooLarge), Answer::Reply(413));
}
