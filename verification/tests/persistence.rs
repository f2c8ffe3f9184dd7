use prog::database::{Data, Database, Snapshot};
use prog::models::{Repo, Timestamp};
use toml::{Table, Value};

fn create_test_repo(full_path: &str, repo: &str) -> Repo {
    let now = Timestamp::new(1_700_000_000, 123_456_789);
    Repo {
        created_at: now,
        updated_at: now,
        host: "github.com".to_string(),
        repo: repo.to_string(),
        owner: "user".to_string(),
        remote_url: format!("https://github.com/user/{}.git", repo),
        base_dir: "/base".to_string(),
        full_path: full_path.to_string(),
    }
}

fn time_value(t: Timestamp) -> Value {
    let mut table = Table::new();
    table.insert("secs".to_string(), Value::Integer(t.secs));
    table.insert("nanos".to_string(), Value::Integer(t.nanos as i64));
    Value::Table(table)
}

fn time_of(v: &Value) -> Timestamp {
    let table = v.as_table().unwrap();
    Timestamp::new(
        table.get("secs").unwrap().as_integer().unwrap(),
        table.get("nanos").unwrap().as_integer().unwrap() as u32,
    )
}

fn to_text(snapshot: &Snapshot) -> String {
    let records: Vec<Value> = snapshot
        .records
        .iter()
        .map(|r| {
            let mut table = Table::new();
            table.insert("created_at".to_string(), time_value(r.created_at));
            table.insert("updated_at".to_string(), time_value(r.updated_at));
            table.insert("host".to_string(), Value::String(r.host.clone()));
            table.insert("repo".to_string(), Value::String(r.repo.clone()));
            table.insert("owner".to_string(), Value::String(r.owner.clone()));
            table.insert("remote_url".to_string(), Value::String(r.remote_url.clone()));
            table.insert("base_dir".to_string(), Value::String(r.base_dir.clone()));
            table.insert("full_path".to_string(), Value::String(r.full_path.clone()));
            Value::Table(table)
        })
        .collect();
    let mut root = Table::new();
    root.insert("version".to_string(), Value::String(snapshot.version.clone()));
    root.insert("records".to_string(), Value::Array(records));
    if let Some(t) = snapshot.last_sync_time {
        root.insert("last_sync_time".to_string(), time_value(t));
    }
    toml::to_string(&root).unwrap()
}

fn text_of(table: &Table, key: &str) -> String {
    table.get(key).unwrap().as_str().unwrap().to_string()
}

fn from_text(text: &str) -> Snapshot {
    let root: Table = text.parse().unwrap();
    let records = root
        .get("records")
        .and_then(|v| v.as_array())
        .map(|records| {
            records
                .iter()
                .map(|v| {
                    let table = v.as_table().unwrap();
                    Repo {
                        created_at: time_of(table.get("created_at").unwrap()),
                        updated_at: time_of(table.get("updated_at").unwrap()),
                        host: text_of(table, "host"),
                        repo: text_of(table, "repo"),
                        owner: text_of(table, "owner"),
                        remote_url: text_of(table, "remote_url"),
                        base_dir: text_of(table, "base_dir"),
                        full_path: text_of(table, "full_path"),
                    }
                })
                .collect()
        })
        .unwrap_or_default();
    Snapshot {
        version: text_of(&root, "version"),
        records,
        last_sync_time: root.get("last_sync_time").map(time_of),
    }
}

#[test]
fn test_btree_serialization_roundtrip() {
    let mut data = Data::new();
    data.record_item_at(
        "/base",
        "https://github.com/user/zebra.git",
        "github.com",
        "zebra",
        "user",
        "/base/github.com/user/zebra",
        Timestamp::new(1_700_000_000, 1),
    );
    data.record_item_at(
        "/base",
        "https://github.com/user/apple.git",
        "github.com",
        "apple",
        "user",
        "/base/github.com/user/apple",
        Timestamp::new(1_700_000_000, 2),
    );

    // Serialize
    let serialized = to_text(&data.to_snapshot());

    // Deserialize
    let deserialized = Data::from_snapshot(from_text(&serialized)).unwrap();
    let records = deserialized.records();

    // The data is preserved and sorted
    assert_eq!(records.size(), 2);
    assert!(records.get("/base/github.com/user/zebra").is_some());
    assert!(records.get("/base/github.com/user/apple").is_some());

    let sorted = records.get_all_sorted();
    assert_eq!(sorted[0].full_path, "/base/github.com/user/apple");
    assert_eq!(sorted[1].full_path, "/base/github.com/user/zebra");

    // The secondary indexes are there after deserialization
    let by_host = records.get_by_host("github.com");
    assert_eq!(by_host.len(), 2);

    let by_owner = records.get_by_owner("user");
    assert_eq!(by_owner.len(), 2);
}

#[test]
fn a_store_of_many_records_survives_the_file() {
    let mut db = Database::new();
    for i in 0..40 {
        let r = create_test_repo(&format!("/base/github.com/user/r{}", i), &format!("r{}", i));
        db.record_item_at(&r.base_dir, &r.remote_url, &r.host, &r.repo, &r.owner, &r.full_path, r.created_at);
    }
    db.update_last_sync_time_at(Timestamp::new(1_700_000_500, 0));
    let text = to_text(&db.to_snapshot());
    let back = Database::open(Some(from_text(&text)));
    assert_eq!(back.size(), 40);
    assert_eq!(back.get_last_sync_time(), Some(Timestamp::new(1_700_000_500, 0)));
    for i in 0..40 {
        let path = format!("/base/github.com/user/r{}", i);
        let r = back.get_by_path(&path).unwrap();
        assert_eq!(r.repo, format!("r{}", i));
        assert_eq!(r.created_at, Timestamp::new(1_700_000_000, 123_456_789));
    }
}

#[test]
fn an_empty_store_survives_the_file() {
    let text = to_text(&Database::new().to_snapshot());
    let back = Database::open(Some(from_text(&text)));
    assert_eq!(back.size(), 0);
    assert_eq!(back.get_last_sync_time(), None);
}
