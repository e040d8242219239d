use typed_request::response::RawResponse;
use typed_request::response::TypedResponse;

fn holder_with_text(text: &str) -> TypedResponse {
    TypedResponse {
        result: Ok(RawResponse {
            text: Some(String::from(text)),
        }),
    }
}

#[test]
fn parse_decodes_u32() {
    assert_eq!(holder_with_text("42").parse::<u32>(), Some(42));
}

#[test]
fn parse_decodes_i64() {
    assert_eq!(holder_with_text("-7").parse::<i64>(), Some(-7));
}

#[test]
fn parse_decodes_string() {
    assert_eq!(
        holder_with_text("\"hello\"").parse::<String>(),
        Some(String::from("hello"))
    );
}

#[test]
fn parse_rejects_malformed_text() {
    assert_eq!(holder_with_text("not json").parse::<u32>(), None);
}

#[test]
fn parse_rejects_wrongly_typed_text() {
    assert_eq!(holder_with_text("\"42\"").parse::<u32>(), None);
    assert_eq!(holder_with_text("-1").parse::<u32>(), None);
}

#[test]
fn parse_absent_without_text() {
    let holder = TypedResponse {
        result: Ok(RawResponse { text: None }),
    };
    assert_eq!(holder.parse::<u32>(), None);
}

#[test]
fn parse_absent_on_transport_failure() {
    let holder = TypedResponse {
        result: Err(String::from("timed out")),
    };
    assert_eq!(holder.parse::<u32>(), None);
    assert_eq!(holder.parse::<String>(), None);
}

#[test]
fn parse_is_idempotent() {
    let holder = holder_with_text("42");
    let first = holder.parse::<u32>();
    let second = holder.parse::<u32>();
    assert_eq!(first, second);
    let failing = holder_with_text("not json");
    assert_eq!(failing.parse::<u32>(), failing.parse::<u32>());
}

#[test]
fn parse_round_trips_encoded_values() {
    let encoded_number = serde_json::to_string(&42u32).expect("encode");
    assert_eq!(holder_with_text(&encoded_number).parse::<u32>(), Some(42));
    let encoded_string = serde_json::to_string("typed").expect("encode");
    assert_eq!(
        holder_with_text(&encoded_string).parse::<String>(),
        Some(String::from("typed"))
    );
    let encoded_negative = serde_json::to_string(&-99i64).expect("encode");
    assert_eq!(holder_with_text(&encoded_negative).parse::<i64>(), Some(-99));
}
