use dumpstors::error::{Code, Status, StoreError};
use dumpstors::models::{Keyspace, Record};
use dumpstors::query::{format_bytes, QueryResult};
use dumpstors::settings::{Settings, Store};

#[test]
fn record_renders_as_key_equals_value() {
    let q = QueryResult::Record(Record {
        key: b"key".to_vec(),
        value: b"value".to_vec(),
    });
    assert_eq!(q.render(), "key=value");
}

#[test]
fn non_utf8_bytes_render_as_list() {
    assert_eq!(format_bytes(&[0xff, 1]), "[255, 1]");
    assert_eq!(format_bytes("h\u{e9}".as_bytes()), "h\u{e9}");
    assert_eq!(format_bytes(&[]), "");
}

#[test]
fn keyspace_answers_render_as_names() {
    let ks = |n: &str| Keyspace {
        name: String::from(n),
    };
    assert_eq!(QueryResult::Keyspace(ks("ks1")).render(), "ks1");
    assert_eq!(
        QueryResult::KeyspaceList(vec![ks("a"), ks("b"), ks("c")]).render(),
        "a\nb\nc"
    );
    assert_eq!(QueryResult::KeyspaceList(vec![]).render(), "");
    assert_eq!(QueryResult::Empty.render(), "");
}

#[test]
fn endpoint_joins_address_and_port() {
    let conf = Settings {
        listen_addr: String::from("0.0.0.0"),
        port: 4242,
        store: Store {
            path: String::from("./.data"),
        },
        seeds: vec![],
    };
    assert_eq!(conf.listen_endpoint(), "0.0.0.0:4242");
    let conf = Settings {
        listen_addr: String::from("127.0.0.1"),
        port: 0,
        store: Store {
            path: String::from("x"),
        },
        seeds: vec![],
    };
    assert_eq!(conf.listen_endpoint(), "127.0.0.1:0");
}

#[test]
fn errors_map_to_status_codes() {
    let cases = [
        (StoreError::KeyspaceNotFound, Code::NotFound, "Keyspace not found"),
        (
            StoreError::KeyspaceAlreadyExists,
            Code::AlreadyExists,
            "Keyspace already exists",
        ),
        (StoreError::KeyNotFound, Code::NotFound, "Key not found"),
        (
            StoreError::InvalidArgument,
            Code::InvalidArgument,
            "Invalid argument",
        ),
        (StoreError::Internal, Code::Internal, "Internal Error"),
    ];
    for (err, code, message) in cases {
        let status = Status::from_error(err);
        assert_eq!(status.code(), code);
        assert_eq!(status.message, message);
        assert_eq!(StoreError::from_status(&status), err);
    }
}

#[test]
fn unknown_status_reads_as_internal_or_key() {
    let s = Status {
        code: Code::NotFound,
        message: String::from("something else"),
    };
    assert_eq!(StoreError::from_status(&s), StoreError::KeyNotFound);
    let s = Status {
        code: Code::AlreadyExists,
        message: String::from("anything"),
    };
    assert_eq!(StoreError::from_status(&s), StoreError::KeyspaceAlreadyExists);
    let s = Status {
        code: Code::Internal,
        message: String::from("disk"),
    };
    assert_eq!(StoreError::from_status(&s), StoreError::Internal);
}
