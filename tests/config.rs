use http_source::config::{
    backoff_for, default_delimiter, default_http_method, default_interval, default_user_agent,
    ping_interval_ms, select_source, split_header, subscription_messages, ConfigError,
    ReconnectPolicy, SourceKind,
};

#[test]
fn defaults() {
    assert_eq!(default_user_agent(), "fluvio/http-source 0.5.0");
    assert_eq!(default_http_method(), "GET");
    assert_eq!(default_interval(), 10);
    assert_eq!(default_delimiter(), "\n");
    assert_eq!(ping_interval_ms(None), 10_000);
    assert_eq!(ping_interval_ms(Some(250)), 250);
}

#[test]
fn header_entries_split_at_first_equals() {
    assert_eq!(
        split_header("Authorization=Bearer a=b"),
        Some(("Authorization".to_string(), "Bearer a=b".to_string()))
    );
    assert_eq!(split_header("a=b"), Some(("a".to_string(), "b".to_string())));
    assert_eq!(split_header("x="), Some(("x".to_string(), "".to_string())));
    assert_eq!(split_header("x:y"), None);
}

#[test]
fn deprecated_subscription_message_goes_first() {
    assert_eq!(
        subscription_messages(
            Some("first".to_string()),
            Some(vec!["a".to_string(), "b".to_string()])
        ),
        vec!["first".to_string(), "a".to_string(), "b".to_string()]
    );
    assert_eq!(subscription_messages(None, None), Vec::<String>::new());
    assert_eq!(
        subscription_messages(Some("only".to_string()), None),
        vec!["only".to_string()]
    );
}

#[test]
fn source_kind_follows_scheme_and_stream_flag() {
    assert_eq!(select_source("ws://host/feed", false), Ok(SourceKind::WebSocket));
    assert_eq!(select_source("WSS://host/feed", true), Ok(SourceKind::WebSocket));
    assert_eq!(select_source("http://host/feed", true), Ok(SourceKind::Streaming));
    assert_eq!(select_source("https://host/feed", false), Ok(SourceKind::Polling));
    assert_eq!(select_source("not a url", false), Err(ConfigError::InvalidEndpoint));
}

#[test]
fn reconnect_policy_configures_backoff() {
    let mut b = backoff_for(Some(ReconnectPolicy {
        base_delay_ms: 5,
        max_delay_ms: 12,
        max_retries: Some(3),
    }));
    assert_eq!(b.next(), Some(5));
    assert_eq!(b.next(), Some(10));
    assert_eq!(b.next(), Some(12));
    assert_eq!(b.next(), None);
    assert_eq!(backoff_for(None).next(), Some(1000));
}
