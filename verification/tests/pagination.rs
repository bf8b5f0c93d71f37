use number_pager::state::{fetch_handler, load_state, AppState, Config};

fn mk_state(tokens: &[&str], default_n: usize, test_number: &str, msg: &str) -> AppState {
    let config = Config {
        port: 0,
        default_fetch_count: default_n,
        test_number: test_number.to_string(),
    };
    let numbers: Vec<String> = tokens.iter().map(|t| t.to_string()).collect();
    load_state(&config, numbers, msg.to_string())
}

#[test]
fn three_calls_scenario() {
    let mut st = mk_state(&["a", "b", "c", "d", "e"], 2, "T", "msg");

    let r1 = st.take_next_page(None);
    assert_eq!(r1.numbers, "T,a,b");
    assert_eq!(r1.message, "msg");
    assert_eq!(r1.count, 3);
    assert_eq!(st.start_index, 2);

    let r2 = st.take_next_page(Some(3));
    assert_eq!(r2.numbers, "T,c,d,e");
    assert_eq!(r2.message, "msg");
    assert_eq!(r2.count, 4);
    assert_eq!(st.start_index, 5);

    let r3 = st.take_next_page(Some(4));
    assert_eq!(r3.numbers, "");
    assert_eq!(r3.message, "No more numbers");
    assert_eq!(r3.count, 0);
    assert_eq!(st.start_index, 5);
}

#[test]
fn empty_source_immediately_exhausted() {
    let mut st = mk_state(&[], 3, "T", "msg");
    let r = st.take_next_page(None);
    assert_eq!(r.numbers, "");
    assert_eq!(r.message, "No more numbers");
    assert_eq!(r.count, 0);
    assert_eq!(st.start_index, 0);
}

#[test]
fn exhausted_is_terminal() {
    let mut st = mk_state(&["a"], 1, "T", "m");
    let r1 = st.take_next_page(Some(5));
    assert_eq!(r1.numbers, "T,a");
    assert_eq!(r1.count, 2);
    for _ in 0..3 {
        let r = st.take_next_page(Some(1));
        assert_eq!(r.numbers, "");
        assert_eq!(r.message, "No more numbers");
        assert_eq!(r.count, 0);
        assert_eq!(st.start_index, 1);
    }
}

#[test]
fn count_is_page_len_plus_one() {
    let mut st = mk_state(&["a", "b", "c", "d", "e"], 2, "T", "m");
    let r = st.take_next_page(Some(4));
    assert_eq!(r.count, 5);
    let r = st.take_next_page(Some(4));
    assert_eq!(r.count, 2);
}

#[test]
fn order_matches_sequence_test_token_first() {
    let mut st = mk_state(&["x", "y", "z"], 3, "FIRST", "m");
    let r = st.take_next_page(None);
    assert_eq!(r.numbers, "FIRST,x,y,z");
}

#[test]
fn repeated_request_never_repeats_a_page() {
    let mut st = mk_state(&["a", "b"], 1, "T", "m");
    let r1 = st.take_next_page(Some(1));
    let r2 = st.take_next_page(Some(1));
    assert_ne!(r1.numbers, r2.numbers);
    assert_eq!(r1.numbers, "T,a");
    assert_eq!(r2.numbers, "T,b");
    let r3 = st.take_next_page(Some(1));
    assert_ne!(r2.numbers, r3.numbers);
    assert_eq!(r3.count, 0);
}

#[test]
fn zero_page_size_falls_back_to_default() {
    let mut st = mk_state(&["a", "b", "c"], 2, "T", "m");
    let r = st.take_next_page(Some(0));
    assert_eq!(r.numbers, "T,a,b");
    assert_eq!(r.count, 3);
}

#[test]
fn oversized_page_size_clamps_to_remaining() {
    let mut st = mk_state(&["a", "b"], 1, "T", "m");
    let r = st.take_next_page(Some(usize::MAX));
    assert_eq!(r.numbers, "T,a,b");
    assert_eq!(r.count, 3);
    assert_eq!(st.start_index, 2);
}

#[test]
fn handler_honours_valid_parameter() {
    let mut st = mk_state(&["a", "b", "c"], 1, "T", "m");
    let n = String::from("2");
    let r = fetch_handler(&mut st, Some(&n));
    assert_eq!(r.numbers, "T,a,b");
    assert_eq!(r.count, 3);
}

#[test]
fn handler_malformed_parameter_uses_default() {
    let mut a = mk_state(&["a", "b", "c", "d"], 2, "T", "m");
    let mut b = mk_state(&["a", "b", "c", "d"], 2, "T", "m");
    let bad = String::from("abc");
    let ra = fetch_handler(&mut a, Some(&bad));
    let rb = fetch_handler(&mut b, None);
    assert_eq!(ra.numbers, rb.numbers);
    assert_eq!(ra.count, rb.count);
    assert_eq!(a.start_index, b.start_index);
    assert_eq!(ra.numbers, "T,a,b");
}

#[test]
fn handler_plus_signed_parameter_is_honoured() {
    let mut st = mk_state(&["a", "b", "c"], 1, "T", "m");
    let n = String::from("+3");
    let r = fetch_handler(&mut st, Some(&n));
    assert_eq!(r.numbers, "T,a,b,c");
}

#[test]
fn load_state_starts_at_zero() {
    let st = mk_state(&["a", "b"], 7, "TN", "hello");
    assert_eq!(st.start_index, 0);
    assert_eq!(st.default_fetch_count, 7);
    assert_eq!(st.test_number, "TN");
    assert_eq!(st.message, "hello");
    assert_eq!(st.numbers, vec!["a".to_string(), "b".to_string()]);
}

#[test]
fn current_page_and_pages_remaining() {
    let mut st = mk_state(&["a", "b", "c", "d", "e"], 2, "T", "m");
    assert_eq!(st.current_page(2), 1);
    assert_eq!(st.pages_remaining(2), 3);
    st.take_next_page(None);
    assert_eq!(st.current_page(2), 2);
    assert_eq!(st.pages_remaining(2), 2);
    st.take_next_page(None);
    assert_eq!(st.current_page(2), 3);
    assert_eq!(st.pages_remaining(2), 1);
    st.take_next_page(None);
    assert_eq!(st.current_page(2), 3);
    assert_eq!(st.pages_remaining(2), 0);
    assert_eq!(st.current_page(1), 6);
}
