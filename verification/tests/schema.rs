use opengemini_engine::error::Error;
use opengemini_engine::schema::{Database, Field, FieldType, Measurement, RetentionPolicy, Schema, Tag};

#[test]
fn mod_test_field_type_as_str() {
    assert_eq!(FieldType::Integer.as_str(), "integer");
    assert_eq!(FieldType::Float.as_str(), "float");
    assert_eq!(FieldType::String.as_str(), "string");
    assert_eq!(FieldType::Boolean.as_str(), "boolean");
}

#[test]
fn mod_test_measurement_new() {
    let m = Measurement::new("cpu".to_string());
    assert_eq!(m.name, "cpu");
    assert!(m.tags.is_empty());
    assert!(m.fields.is_empty());
    assert_eq!(m.schema_version, 0);
}

#[test]
fn test_measurement_add_tag_and_field() {
    let mut m = Measurement::new("cpu".to_string());
    m.add_tag("host".to_string(), "server1".to_string());
    m.add_field("usage".to_string(), FieldType::Float);

    assert_eq!(m.tags.len(), 1);
    assert_eq!(m.fields.len(), 1);
    assert_eq!(m.get_tag("host").unwrap().value, "server1");
    assert_eq!(m.get_field("usage").unwrap().ftype, FieldType::Float);
}

#[test]
fn mod_test_retention_policy_new() {
    let rp = RetentionPolicy::new("rp1".to_string(), 86400);
    assert_eq!(rp.name, "rp1");
    assert_eq!(rp.duration_seconds, 86400);
    assert_eq!(rp.replica_count, 1);
}

#[test]
fn test_retention_policy_with_options() {
    let rp = RetentionPolicy::new("rp1".to_string(), 86400)
        .with_replica_count(3)
        .with_shard_duration(3600);

    assert_eq!(rp.replica_count, 3);
    assert_eq!(rp.shard_duration_seconds, 3600);
}

#[test]
fn mod_test_database_new() {
    let db = Database::new("testdb".to_string());
    assert_eq!(db.name, "testdb");
    assert!(db.retention_policies.is_empty());
    assert!(db.default_rp.is_none());
}

#[test]
fn mod_test_database_add_rp() {
    let mut db = Database::new("testdb".to_string());
    let rp = RetentionPolicy::new("rp1".to_string(), 86400);
    db.add_rp(rp);

    assert_eq!(db.retention_policies.len(), 1);
    assert_eq!(db.default_rp, Some("rp1".to_string()));
}

#[test]
fn mod_test_database_get_rp() {
    let mut db = Database::new("testdb".to_string());
    db.add_rp(RetentionPolicy::new("rp1".to_string(), 86400));

    assert!(db.get_rp("rp1").is_some());
    assert!(db.get_rp("nonexistent").is_none());
}

#[test]
fn mod_test_schema_new() {
    let schema = Schema::new();
    assert!(schema.databases.is_empty());
}

#[test]
fn mod_test_schema_create_database() {
    let mut schema = Schema::new();
    let result = schema.create_database("testdb".to_string());
    assert!(result.is_ok());
    assert_eq!(schema.list_databases(), vec!["testdb"]);
}

#[test]
fn test_schema_create_duplicate_database() {
    let mut schema = Schema::new();
    schema.create_database("testdb".to_string()).unwrap();
    let result = schema.create_database("testdb".to_string());
    assert!(result.is_err());
}

#[test]
fn test_schema_get_database() {
    let mut schema = Schema::new();
    schema.create_database("testdb".to_string()).unwrap();

    assert!(schema.get_database("testdb").is_some());
    assert!(schema.get_database("nonexistent").is_none());
}

#[test]
fn mod_test_schema_create_retention_policy() {
    let mut schema = Schema::new();
    schema.create_database("testdb".to_string()).unwrap();

    let rp = RetentionPolicy::new("rp1".to_string(), 86400);
    let result = schema.create_retention_policy("testdb", rp);
    assert!(result.is_ok());

    let db = schema.get_database("testdb").unwrap();
    assert!(db.get_rp("rp1").is_some());
}

#[test]
fn test_schema_create_rp_nonexistent_db() {
    let mut schema = Schema::new();
    let rp = RetentionPolicy::new("rp1".to_string(), 86400);
    let result = schema.create_retention_policy("nonexistent", rp);
    assert!(result.is_err());
}

#[test]
fn schema_test_test_field_type_as_str() {
    assert_eq!(FieldType::Integer.as_str(), "integer");
    assert_eq!(FieldType::Float.as_str(), "float");
    assert_eq!(FieldType::String.as_str(), "string");
    assert_eq!(FieldType::Boolean.as_str(), "boolean");
}

#[test]
fn test_field_type_variants() {
    assert_eq!(FieldType::Integer, FieldType::Integer);
    assert_eq!(FieldType::Float, FieldType::Float);
    assert_eq!(FieldType::String, FieldType::String);
    assert_eq!(FieldType::Boolean, FieldType::Boolean);
}

#[test]
fn test_tag_new() {
    let tag = Tag { key: "host".to_string(), value: "server1".to_string() };
    assert_eq!(tag.key, "host");
    assert_eq!(tag.value, "server1");
}

#[test]
fn test_field_new() {
    let field = Field { name: "cpu".to_string(), ftype: FieldType::Float };
    assert_eq!(field.name, "cpu");
    assert_eq!(field.ftype, FieldType::Float);
}

#[test]
fn test_retention_policy_is_expired() {
    let rp = RetentionPolicy::new("rp1".to_string(), 86400);
    let now = chrono::Utc::now().timestamp();

    assert!(!rp.is_expired(now));

    let old_timestamp = now - 100000;
    assert!(rp.is_expired(old_timestamp));
}

#[test]
fn schema_test_test_schema_new() {
    let schema = Schema::new();
    assert!(schema.get_database("testdb").is_none());
}

#[test]
fn schema_test_test_schema_create_database() {
    let mut schema = Schema::new();
    let result = schema.create_database("testdb".to_string());

    assert!(result.is_ok());
    assert!(schema.get_database("testdb").is_some());
}

#[test]
fn test_schema_create_database_twice() {
    let mut schema = Schema::new();
    let _ = schema.create_database("testdb".to_string());
    let result = schema.create_database("testdb".to_string());

    assert!(result.is_err());
}

#[test]
fn schema_test_test_schema_create_retention_policy() {
    let mut schema = Schema::new();
    schema.create_database("testdb".to_string()).unwrap();

    let rp = RetentionPolicy::new("rp1".to_string(), 86400);
    let result = schema.create_retention_policy("testdb", rp);

    assert!(result.is_ok());
}

#[test]
fn test_schema_create_retention_policy_database_not_found() {
    let mut schema = Schema::new();
    let rp = RetentionPolicy::new("rp1".to_string(), 86400);
    let result = schema.create_retention_policy("nonexistent", rp);

    assert!(result.is_err());
}

#[test]
fn test_schema_get_retention_policy() {
    let mut schema = Schema::new();
    schema.create_database("testdb".to_string()).unwrap();

    let rp = RetentionPolicy::new("rp1".to_string(), 86400);
    schema.create_retention_policy("testdb", rp).unwrap();

    let db = schema.get_database("testdb").unwrap();
    let found = db.get_rp("rp1");
    assert!(found.is_some());
    assert_eq!(found.unwrap().name, "rp1");
}

#[test]
fn test_schema_list_databases() {
    let mut schema = Schema::new();
    schema.create_database("db1".to_string()).unwrap();
    schema.create_database("db2".to_string()).unwrap();

    let dbs = schema.list_databases();
    assert_eq!(dbs.len(), 2);
}

#[test]
fn schema_test_test_database_new() {
    let db = Database::new("testdb".to_string());

    assert_eq!(db.name, "testdb");
    assert!(db.retention_policies.is_empty());
    assert_eq!(db.default_rp, None);
}

#[test]
fn schema_test_test_database_add_rp() {
    let mut db = Database::new("testdb".to_string());
    let rp = RetentionPolicy::new("rp1".to_string(), 86400);

    db.add_rp(rp);

    assert_eq!(db.retention_policies.len(), 1);
    assert_eq!(db.default_rp, Some("rp1".to_string()));
}

#[test]
fn schema_test_test_database_get_rp() {
    let mut db = Database::new("testdb".to_string());
    let rp = RetentionPolicy::new("rp1".to_string(), 86400);
    db.add_rp(rp);

    let found = db.get_rp("rp1");
    assert!(found.is_some());
    assert_eq!(found.unwrap().name, "rp1");

    let not_found = db.get_rp("nonexistent");
    assert!(not_found.is_none());
}

#[test]
fn test_database_get_default_rp() {
    let mut db = Database::new("testdb".to_string());
    let rp = RetentionPolicy::new("rp1".to_string(), 86400);
    db.add_rp(rp);

    let default = db.get_default_rp();
    assert!(default.is_some());
    assert_eq!(default.unwrap().name, "rp1");
}

#[test]
fn test_database_get_default_rp_none() {
    let db = Database::new("testdb".to_string());

    let default = db.get_default_rp();
    assert!(default.is_none());
}

#[test]
fn replacing_a_policy_keeps_one_entry_and_the_first_default() {
    let mut db = Database::new("db".to_string());
    db.add_rp(RetentionPolicy::new("a".to_string(), 10));
    db.add_rp(RetentionPolicy::new("b".to_string(), 20));
    db.add_rp(RetentionPolicy::new("a".to_string(), 30));
    assert_eq!(db.retention_policies.len(), 2);
    assert_eq!(db.get_rp("a").unwrap().duration_seconds, 30);
    assert_eq!(db.get_default_rp().unwrap().name, "a");
}

#[test]
fn create_measurement_reports_missing_parts() {
    let mut schema = Schema::new();
    match schema.create_measurement("db", "rp", Measurement::new("m".to_string())) {
        Err(Error::Schema(m)) => assert_eq!(m, "database db not found"),
        _ => panic!("expected an error"),
    }
    schema.create_database("db".to_string()).unwrap();
    match schema.create_measurement("db", "rp", Measurement::new("m".to_string())) {
        Err(Error::Schema(m)) => assert_eq!(m, "retention policy rp not found"),
        _ => panic!("expected an error"),
    }
    schema.create_retention_policy("db", RetentionPolicy::new("rp".to_string(), 1)).unwrap();
    assert!(schema.create_measurement("db", "rp", Measurement::new("m".to_string())).is_ok());
    match schema.create_database("db".to_string()) {
        Err(Error::Schema(m)) => assert_eq!(m, "database db already exists"),
        _ => panic!("expected an error"),
    }
}

#[test]
fn expiry_uses_wrapping_difference() {
    let rp = RetentionPolicy::new("rp".to_string(), 100);
    assert!(!rp.is_expired_at(1000, 900));
    assert!(rp.is_expired_at(1000, 899));
    assert!(rp.is_expired_at(1000, 2000));
}

#[test]
fn database_handed_out_for_changes_is_the_stored_one() {
    let mut schema = Schema::new();
    {
        let db = schema.create_database("db".to_string()).unwrap();
        db.add_rp(RetentionPolicy::new("rp".to_string(), 5));
    }
    assert!(schema.get_database("db").unwrap().get_rp("rp").is_some());
    let db = schema.get_database_mut("db").unwrap();
    db.add_rp(RetentionPolicy::new("rp2".to_string(), 5));
    assert_eq!(schema.get_database("db").unwrap().retention_policies.len(), 2);
}

#[test]
fn schema_test_test_measurement_new() {
    let measurement = Measurement::new("cpu".to_string());

    assert_eq!(measurement.name, "cpu");
    assert!(measurement.tags.is_empty());
    assert!(measurement.fields.is_empty());
    assert_eq!(measurement.schema_version, 0);
}

#[test]
fn test_measurement_add_tag() {
    let mut measurement = Measurement::new("cpu".to_string());
    measurement.add_tag("host".to_string(), "server1".to_string());

    assert_eq!(measurement.tags.len(), 1);
    assert_eq!(measurement.tags[0].key, "host");
    assert_eq!(measurement.tags[0].value, "server1");
}

#[test]
fn test_measurement_add_field() {
    let mut measurement = Measurement::new("cpu".to_string());
    measurement.add_field("usage".to_string(), FieldType::Float);

    assert_eq!(measurement.fields.len(), 1);
    assert_eq!(measurement.fields[0].name, "usage");
    assert_eq!(measurement.fields[0].ftype, FieldType::Float);
}

#[test]
fn test_measurement_get_field() {
    let mut measurement = Measurement::new("cpu".to_string());
    measurement.add_field("usage".to_string(), FieldType::Float);
    measurement.add_field("idle".to_string(), FieldType::Float);

    let found = measurement.get_field("usage");
    assert!(found.is_some());
    assert_eq!(found.unwrap().name, "usage");

    let not_found = measurement.get_field("nonexistent");
    assert!(not_found.is_none());
}

#[test]
fn test_measurement_get_tag() {
    let mut measurement = Measurement::new("cpu".to_string());
    measurement.add_tag("host".to_string(), "server1".to_string());
    measurement.add_tag("region".to_string(), "us-east".to_string());

    let found = measurement.get_tag("host");
    assert!(found.is_some());
    assert_eq!(found.unwrap().key, "host");

    let not_found = measurement.get_tag("nonexistent");
    assert!(not_found.is_none());
}

#[test]
fn schema_test_test_retention_policy_new() {
    let rp = RetentionPolicy::new("rp1".to_string(), 86400);

    assert_eq!(rp.name, "rp1");
    assert_eq!(rp.duration_seconds, 86400);
    assert_eq!(rp.replica_count, 1);
    assert_eq!(rp.shard_duration_seconds, 3600 * 24 * 7);
}

#[test]
fn test_retention_policy_with_replica_count() {
    let rp = RetentionPolicy::new("rp1".to_string(), 86400);
    let rp = rp.with_replica_count(3);

    assert_eq!(rp.replica_count, 3);
}

#[test]
fn test_retention_policy_with_shard_duration() {
    let rp = RetentionPolicy::new("rp1".to_string(), 86400);
    let rp = rp.with_shard_duration(3600);

    assert_eq!(rp.shard_duration_seconds, 3600);
}

#[test]
fn test_schema_drop_database() {
    let mut schema = Schema::new();
    schema.create_database("db".to_string()).unwrap();
    assert!(schema.drop_database("db").is_ok());
    assert!(schema.get_database("db").is_none());
    match schema.drop_database("db") {
        Err(Error::Schema(m)) => assert_eq!(m, "database db not found"),
        _ => panic!("expected a schema error"),
    }
}
