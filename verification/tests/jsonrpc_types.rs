use lsp_client::jsonrpc_types::{
    JsonRPCError, JsonRPCResult, Notification, Request, Response, ResponseContent, ResponseError,
    JSONRPC_V2,
};

#[derive(Debug, Clone, PartialEq, Eq)]
struct Params {
    p0: u32,
    p1: u32,
}

fn check_request<P: Clone + PartialEq + std::fmt::Debug>(params: P, id: Option<u64>) {
    let request = Request::new("method", params.clone(), id);
    assert_eq!("2.0", request.jsonrpc);
    assert_eq!("method", request.method);
    assert_eq!(params, request.params);
    assert_eq!(id, request.id);
    assert_eq!(request, request.clone());
}

fn check_notification<P: Clone + PartialEq + std::fmt::Debug>(params: P) {
    let notification = Notification::new("method", params.clone());
    assert_eq!("2.0", notification.jsonrpc);
    assert_eq!("method", notification.method);
    assert_eq!(params, notification.params);
    assert_eq!(notification, notification.clone());
}

fn check_response<R, E>(result: JsonRPCResult<R, E>, id: Option<u64>)
where
    R: Clone + PartialEq + std::fmt::Debug,
    E: Clone + PartialEq + std::fmt::Debug,
{
    let response = Response::new(result.clone(), id);
    assert_eq!("2.0", response.jsonrpc);
    assert_eq!(result, response.result);
    assert_eq!(id, response.id);
    assert_eq!(response, response.clone());
}

fn check_response_permutations<D: Clone + PartialEq + std::fmt::Debug>(data: D) {
    check_response(JsonRPCResult::<_, ()>::Result(data.clone()), Some(1));
    check_response(JsonRPCResult::<_, ()>::Result(data.clone()), None);
    check_response(
        JsonRPCResult::<(), _>::Error(JsonRPCError {
            code: -1,
            message: "message".to_string(),
            data: Some(data.clone()),
        }),
        Some(1),
    );
    check_response(
        JsonRPCResult::<(), ()>::Error(JsonRPCError {
            code: -1,
            message: "message".to_string(),
            data: None,
        }),
        Some(1),
    );
    check_response(
        JsonRPCResult::<(), _>::Error(JsonRPCError {
            code: -1,
            message: "message".to_string(),
            data: Some(data),
        }),
        None,
    );
    check_response(
        JsonRPCResult::<(), ()>::Error(JsonRPCError {
            code: -1,
            message: "message".to_string(),
            data: None,
        }),
        None,
    );
}

fn check_content_permutations<D: Clone + PartialEq + std::fmt::Debug>(data: D) {
    check_response(ResponseContent::<_, ()>::Result(data.clone()), Some(1));
    check_response(ResponseContent::<_, ()>::Result(data.clone()), None);
    check_response(
        ResponseContent::<(), _>::Error(ResponseError {
            code: -1,
            message: "message".to_string(),
            data: Some(data.clone()),
        }),
        Some(1),
    );
    check_response(
        ResponseContent::<(), ()>::Error(ResponseError {
            code: -1,
            message: "message".to_string(),
            data: None,
        }),
        Some(1),
    );
    check_response(
        ResponseContent::<(), _>::Error(ResponseError {
            code: -1,
            message: "message".to_string(),
            data: Some(data),
        }),
        None,
    );
    check_response(
        ResponseContent::<(), ()>::Error(ResponseError {
            code: -1,
            message: "message".to_string(),
            data: None,
        }),
        None,
    );
}

#[test]
fn jsonrpc_types_test_request_serde() {
    check_request((), None);
    check_request((), Some(1));
    check_request(vec![0, 1], None);
    check_request(vec![0, 1], Some(1));
    check_request(Params { p0: 0, p1: 1 }, None);
    check_request(Params { p0: 0, p1: 1 }, Some(1));
}

#[test]
fn jsonrpc_types_test_notification_serde() {
    check_notification(());
    check_notification(vec![0, 1]);
    check_notification(Params { p0: 0, p1: 1 });
}

#[test]
fn jsonrpc_types_test_response_serde() {
    check_response_permutations(1);
    check_response_permutations(vec![1, -1]);
    check_response_permutations(Params { p0: 0, p1: 1 });
}

#[test]
fn request_test_request_serde() {
    check_request((), None);
    check_request((), Some(1));
    check_request(vec![0, 1], None);
    check_request(vec![0, 1], Some(1));
    check_request(Params { p0: 0, p1: 1 }, None);
    check_request(Params { p0: 0, p1: 1 }, Some(1));
}

#[test]
fn notification_test_notification_serde() {
    check_notification(());
    check_notification(vec![0, 1]);
    check_notification(Params { p0: 0, p1: 1 });
}

#[test]
fn response_test_response_serde() {
    check_content_permutations(1);
    check_content_permutations(vec![1, -1]);
    check_content_permutations(Params { p0: 0, p1: 1 });
}

#[test]
fn envelopes_differ_by_their_fields() {
    assert_eq!("2.0", JSONRPC_V2);
    assert_ne!(Request::new("a", 1, Some(1)), Request::new("a", 1, Some(2)));
    assert_ne!(Request::new("a", 1, Some(1)), Request::new("a", 1, None));
    assert_ne!(Request::new("a", 1, None), Request::new("b", 1, None));
    assert_ne!(Notification::new("a", 1), Notification::new("a", 2));
    assert_ne!(
        Response::new(JsonRPCResult::<i32, ()>::Result(1), Some(1)),
        Response::new(JsonRPCResult::<i32, ()>::Error(JsonRPCError { code: 1, message: String::new(), data: None }), Some(1))
    );
}
