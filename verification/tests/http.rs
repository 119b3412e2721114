use barzel::http::{HttpClient, MockHttpClient};

#[test]
fn answers_come_in_turn() {
    let mut client = MockHttpClient::new(vec![Ok(200), Err("refused".to_string())]);
    assert_eq!(client.get("http://a", 1), Ok(200));
    assert_eq!(client.get("http://a", 1), Err("refused".to_string()));
}

#[test]
fn single_answers_are_repeated() {
    let mut ok = MockHttpClient::always_ok(204);
    let mut err = MockHttpClient::always_err("dns");
    for _ in 0..3 {
        assert_eq!(ok.get("u", 1), Ok(204));
        assert_eq!(err.get("u", 1), Err("dns".to_string()));
    }
}
