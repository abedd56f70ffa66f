use dumpstors::error::Code;
use dumpstors::models::{
    DeleteKeyQuery, DeleteKeysQuery, DeleteKeyspaceQuery, GetKeyQuery, GetKeysQuery,
    GetKeyspaceQuery, InsertKeyQuery, InsertKeysQuery, Keyspace, Record, TruncateKeyspaceQuery,
};
use dumpstors::server::DumpstorsStoreServer;
use dumpstors::store::Store;

fn create_random_store_server() -> DumpstorsStoreServer {
    let path = format!("/tmp/dumpstors-tests/{}", uuid::Uuid::new_v4());
    let (store, failed) = Store::open(path, vec![]);
    assert!(failed.is_empty());
    DumpstorsStoreServer::new(store)
}

fn keyspace(name: &str) -> Keyspace {
    Keyspace {
        name: String::from(name),
    }
}

fn record(key: &[u8], value: &[u8]) -> Record {
    Record {
        key: key.to_vec(),
        value: value.to_vec(),
    }
}

fn records() -> Vec<Record> {
    vec![
        record(b"foo", b"bar"),
        record(b"doo", b"dar"),
        record(b"daa", b"daa"),
        record(b"duu", b"duu"),
    ]
}

#[test]
fn server_store_server_ping_test() {
    let srv = create_random_store_server();
    assert_eq!(srv.ping().unwrap(), ());
}

#[test]
fn server_store_server_keyspace_test() {
    let mut srv = create_random_store_server();

    let ks1 = keyspace("ks1");
    let ks2 = keyspace("ks2");

    srv.create_keyspace(ks1.clone()).unwrap();
    srv.create_keyspace(ks2.clone()).unwrap();

    let resp = srv
        .get_keyspace(GetKeyspaceQuery {
            keyspace: ks1.name.clone(),
        })
        .unwrap();
    assert_eq!(resp, ks1.clone());

    let resp = srv
        .get_keyspace(GetKeyspaceQuery {
            keyspace: ks2.name.clone(),
        })
        .unwrap();
    assert_eq!(resp, ks2.clone());

    srv.delete_keyspace(DeleteKeyspaceQuery {
        keyspace: ks1.name.clone(),
    })
    .unwrap();

    let resp = srv.get_keyspace(GetKeyspaceQuery {
        keyspace: ks1.name.clone(),
    });
    match resp {
        Err(e) => assert_eq!(e.code(), Code::NotFound),
        _ => assert!(false, "Keyspace should not exist after being deleted"),
    };

    srv.truncate_keyspace(TruncateKeyspaceQuery {
        keyspace: ks2.name.clone(),
    })
    .unwrap();

    let resp = srv
        .get_keyspace(GetKeyspaceQuery {
            keyspace: ks2.name.clone(),
        })
        .unwrap();
    assert_eq!(resp, ks2.clone());
}

#[test]
fn server_store_server_create_existing_keyspace() {
    let mut srv = create_random_store_server();
    let ks = keyspace("ks");

    srv.create_keyspace(ks.clone()).unwrap();
    let resp = srv.create_keyspace(ks.clone());

    match resp {
        Err(e) => assert_eq!(e.code(), Code::AlreadyExists),
        _ => assert!(false, "Creating an existing keyspace must return an error"),
    };
}

#[test]
fn get_inexistant_key_test() {
    let mut srv = create_random_store_server();
    let ks = keyspace("ks");
    srv.create_keyspace(ks.clone()).unwrap();
    let resp = srv.get_key(GetKeyQuery {
        keyspace: ks.name.clone(),
        key: b"foo".to_vec(),
    });

    match resp {
        Err(e) => assert_eq!(e.code(), Code::NotFound),
        _ => assert!(false, "Getting an inextant key should return an NotFound"),
    };
}

#[test]
fn delete_inexistant_key_test() {
    let mut srv = create_random_store_server();
    let ks = keyspace("ks");
    srv.create_keyspace(ks.clone()).unwrap();
    let resp = srv.delete_key(DeleteKeyQuery {
        keyspace: ks.name.clone(),
        key: b"foo".to_vec(),
    });

    match resp {
        Err(e) => assert_eq!(e.code(), Code::NotFound),
        _ => assert!(false, "Deleting an inextant key should return an NotFound"),
    };
}

#[test]
fn getdelins_inexistant_keyspace_test() {
    let mut srv = create_random_store_server();

    let resp = srv.delete_key(DeleteKeyQuery {
        keyspace: String::from("NotFound"),
        key: b"foo".to_vec(),
    });
    match resp {
        Err(e) => assert_eq!(e.code(), Code::NotFound),
        _ => assert!(
            false,
            "Deleting a key on a unknown keyspace must return an NotFound"
        ),
    };

    let resp = srv.insert_key(InsertKeyQuery {
        keyspace: String::from("NotFound"),
        record: Some(record(b"foo", b"foo")),
    });
    match resp {
        Err(e) => assert_eq!(e.code(), Code::NotFound),
        _ => assert!(
            false,
            "Inserting a key on a unknown keyspace must return an NotFound"
        ),
    };

    let resp = srv.get_key(GetKeyQuery {
        keyspace: String::from("NotFound"),
        key: b"foo".to_vec(),
    });
    match resp {
        Err(e) => assert_eq!(e.code(), Code::NotFound),
        _ => assert!(
            false,
            "Getting a key on a unknown keyspace must return an NotFound"
        ),
    };
}

#[test]
fn insert_get_key_test() {
    let mut srv = create_random_store_server();
    let ks = keyspace("ks");
    srv.create_keyspace(ks.clone()).unwrap();

    for r in records() {
        srv.insert_key(InsertKeyQuery {
            keyspace: ks.name.clone(),
            record: Some(r.clone()),
        })
        .unwrap();

        let resp = srv
            .get_key(GetKeyQuery {
                keyspace: ks.name.clone(),
                key: r.key.clone(),
            })
            .unwrap();

        assert_eq!(r, resp)
    }
}

#[test]
fn insert_keys_test() {
    let mut srv = create_random_store_server();
    let ks = keyspace("ks");
    srv.create_keyspace(ks.clone()).unwrap();

    srv.insert_keys(InsertKeysQuery {
        keyspace: ks.name.clone(),
        records: records(),
    })
    .unwrap();

    for r in records() {
        let resp = srv
            .get_key(GetKeyQuery {
                keyspace: ks.name.clone(),
                key: r.key.clone(),
            })
            .unwrap();

        assert_eq!(r, resp)
    }
}

#[test]
fn delete_keys_test() {
    let mut srv = create_random_store_server();
    let ks = keyspace("ks");
    srv.create_keyspace(ks.clone()).unwrap();

    srv.insert_keys(InsertKeysQuery {
        keyspace: ks.name.clone(),
        records: records(),
    })
    .unwrap();

    srv.delete_keys(DeleteKeysQuery {
        keyspace: ks.name.clone(),
        keys: records().into_iter().map(|r| r.key).collect(),
    })
    .unwrap();

    for r in records() {
        let resp = srv.get_key(GetKeyQuery {
            keyspace: ks.name.clone(),
            key: r.key.clone(),
        });

        match resp {
            Err(e) => assert_eq!(e.code(), Code::NotFound),
            _ => assert!(false, "Getting an inextant key should return an NotFound"),
        };
    }
}

#[test]
fn get_keys_stream_test() {
    let mut srv = create_random_store_server();
    let ks = keyspace("ks");
    srv.create_keyspace(ks.clone()).unwrap();

    for r in records() {
        srv.insert_key(InsertKeyQuery {
            keyspace: ks.name.clone(),
            record: Some(r.clone()),
        })
        .unwrap();
    }

    let items = srv
        .get_keys(GetKeysQuery {
            keyspace: ks.name.clone(),
            keys: records().into_iter().map(|r| r.key).collect(),
        })
        .unwrap();

    let mut inserted_records = vec![];
    for r in items {
        inserted_records.push(r.unwrap());
    }

    assert_eq!(records(), inserted_records)
}

#[test]
fn get_keys_stops_at_first_missing_key() {
    let mut srv = create_random_store_server();
    srv.create_keyspace(keyspace("ks")).unwrap();
    srv.insert_keys(InsertKeysQuery {
        keyspace: String::from("ks"),
        records: records(),
    })
    .unwrap();

    let items = srv
        .get_keys(GetKeysQuery {
            keyspace: String::from("ks"),
            keys: vec![b"foo".to_vec(), b"missing".to_vec(), b"doo".to_vec()],
        })
        .unwrap();

    assert_eq!(items.len(), 2);
    assert_eq!(items[0].as_ref().unwrap(), &record(b"foo", b"bar"));
    match &items[1] {
        Err(e) => {
            assert_eq!(e.code(), Code::NotFound);
            assert_eq!(e.message, "Key not found");
        },
        Ok(_) => assert!(false, "a missing key must end the stream"),
    }
}

#[test]
fn get_keys_on_unknown_keyspace_fails() {
    let srv = create_random_store_server();
    let resp = srv.get_keys(GetKeysQuery {
        keyspace: String::from("nope"),
        keys: vec![b"foo".to_vec()],
    });
    match resp {
        Err(e) => {
            assert_eq!(e.code(), Code::NotFound);
            assert_eq!(e.message, "Keyspace not found");
        },
        Ok(_) => assert!(false, "an unknown keyspace must fail"),
    }
}

#[test]
fn insert_key_without_record_is_invalid() {
    let mut srv = create_random_store_server();
    srv.create_keyspace(keyspace("ks")).unwrap();
    let resp = srv.insert_key(InsertKeyQuery {
        keyspace: String::from("ks"),
        record: None,
    });
    match resp {
        Err(e) => assert_eq!(e.code(), Code::InvalidArgument),
        Ok(_) => assert!(false, "a request without a record is malformed"),
    }
}

#[test]
fn create_keyspace_with_bad_name_is_invalid() {
    let mut srv = create_random_store_server();
    for name in ["", ".", "..", "a/b"] {
        match srv.create_keyspace(keyspace(name)) {
            Err(e) => assert_eq!(e.code(), Code::InvalidArgument),
            Ok(_) => assert!(false, "the name {:?} must be refused", name),
        }
    }
    assert!(srv.list_keyspaces().unwrap().keyspaces.is_empty());
}

#[test]
fn scenario_key_lifecycle() {
    let mut srv = create_random_store_server();
    srv.create_keyspace(keyspace("ks1")).unwrap();
    srv.insert_key(InsertKeyQuery {
        keyspace: String::from("ks1"),
        record: Some(record(b"key", b"value")),
    })
    .unwrap();
    let got = srv
        .get_key(GetKeyQuery {
            keyspace: String::from("ks1"),
            key: b"key".to_vec(),
        })
        .unwrap();
    assert_eq!(got.value, b"value".to_vec());
    srv.delete_key(DeleteKeyQuery {
        keyspace: String::from("ks1"),
        key: b"key".to_vec(),
    })
    .unwrap();
    match srv.get_key(GetKeyQuery {
        keyspace: String::from("ks1"),
        key: b"key".to_vec(),
    }) {
        Err(e) => assert_eq!(e.code(), Code::NotFound),
        Ok(_) => assert!(false, "Key should not exist after being deleted"),
    }
    srv.delete_keyspace(DeleteKeyspaceQuery {
        keyspace: String::from("ks1"),
    })
    .unwrap();
}

#[test]
fn scenario_keyspace_lifecycle() {
    let mut srv = create_random_store_server();
    srv.create_keyspace(keyspace("ks1")).unwrap();
    let got = srv
        .get_keyspace(GetKeyspaceQuery {
            keyspace: String::from("ks1"),
        })
        .unwrap();
    assert_eq!(got, keyspace("ks1"));
    srv.delete_keyspace(DeleteKeyspaceQuery {
        keyspace: String::from("ks1"),
    })
    .unwrap();
    match srv.get_keyspace(GetKeyspaceQuery {
        keyspace: String::from("ks1"),
    }) {
        Err(e) => assert_eq!(e.code(), Code::NotFound),
        Ok(_) => assert!(false, "Keyspace should not exist after being deleted"),
    }
}

#[test]
fn scenario_list_keyspaces() {
    let mut srv = create_random_store_server();
    srv.create_keyspace(keyspace("ks3")).unwrap();
    srv.create_keyspace(keyspace("ks1")).unwrap();
    srv.create_keyspace(keyspace("ks2")).unwrap();
    let listed = srv.list_keyspaces().unwrap().keyspaces;
    assert_eq!(listed, vec![keyspace("ks1"), keyspace("ks2"), keyspace("ks3")]);
    srv.delete_keyspace(DeleteKeyspaceQuery {
        keyspace: String::from("ks2"),
    })
    .unwrap();
    let listed = srv.list_keyspaces().unwrap().keyspaces;
    assert_eq!(listed, vec![keyspace("ks1"), keyspace("ks3")]);
}

#[test]
fn scenario_batch_then_stream() {
    let mut srv = create_random_store_server();
    srv.create_keyspace(keyspace("ks")).unwrap();
    srv.insert_keys(InsertKeysQuery {
        keyspace: String::from("ks"),
        records: records(),
    })
    .unwrap();
    let items = srv
        .get_keys(GetKeysQuery {
            keyspace: String::from("ks"),
            keys: vec![
                b"foo".to_vec(),
                b"doo".to_vec(),
                b"daa".to_vec(),
                b"duu".to_vec(),
            ],
        })
        .unwrap();
    let got: Vec<Record> = items.into_iter().map(|r| r.unwrap()).collect();
    assert_eq!(got, records());
}

#[test]
fn scenario_delete_nonexistent_key() {
    let mut srv = create_random_store_server();
    srv.create_keyspace(keyspace("ks")).unwrap();
    match srv.delete_key(DeleteKeyQuery {
        keyspace: String::from("ks"),
        key: b"nonexistent".to_vec(),
    }) {
        Err(e) => assert_eq!(e.code(), Code::NotFound),
        Ok(_) => assert!(false, "Deleting an inextant key should return an NotFound"),
    }
}

#[test]
fn truncate_unknown_keyspace_fails() {
    let mut srv = create_random_store_server();
    match srv.truncate_keyspace(TruncateKeyspaceQuery {
        keyspace: String::from("nope"),
    }) {
        Err(e) => assert_eq!(e.code(), Code::NotFound),
        Ok(_) => assert!(false, "an unknown keyspace must fail"),
    }
}
