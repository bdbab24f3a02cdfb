use rocksdict::batch::{StoreError, WriteBatch};
use rocksdict::codec::{encode_value, CodecError, Value};
use rocksdict::config::{max_len_prefix, PrefixRegistry, RocksDictConfig, SliceTransformType, StoreOptions, MAX_PREFIX_LEN};
use rocksdict::integer::Integer;
use rocksdict::cursor::Move;
use rocksdict::store::{plan_open, AccessType, Choice, Rdict};

fn text(s: &str) -> Value {
    Value::String(s.to_string())
}

fn store(raw_mode: bool) -> Rdict<u32> {
    Rdict::new(7u32, RocksDictConfig { raw_mode, prefix_extractors: PrefixRegistry::new() })
}

fn extractors(r: &PrefixRegistry) -> Vec<(String, SliceTransformType)> {
    let mut v = r.entries().clone();
    v.sort_by(|a, b| a.0.cmp(&b.0));
    v
}

#[test]
fn open_plan_prefers_given_then_loaded() {
    let given = StoreOptions { raw_mode: false, prefix_extractor: Some(SliceTransformType::Fixed(4)) };
    let loaded = (StoreOptions::new(false), vec![("users".to_string(), StoreOptions::new(false))]);
    let plan = plan_open(Some(loaded.clone()), Some(given), None).unwrap();
    assert_eq!(plan.options, Choice::Given);
    assert_eq!(plan.column_families, Some(Choice::Loaded));
    assert!(plan.add_default_column_family);
    assert_eq!(extractors(&plan.config.prefix_extractors), vec![("default".to_string(), SliceTransformType::Fixed(4))]);
    let plan = plan_open(Some(loaded), None, None).unwrap();
    assert_eq!(plan.options, Choice::Loaded);
    let plan = plan_open(None, None, None).unwrap();
    assert_eq!(plan.options, Choice::Fresh);
    assert_eq!(plan.column_families, None);
    assert!(!plan.add_default_column_family);
    assert!(!plan.config.raw_mode);
}

#[test]
fn open_plan_collects_prefix_extractors_and_default() {
    let cfs = vec![
        ("default".to_string(), StoreOptions::new(true)),
        ("a".to_string(), StoreOptions { raw_mode: true, prefix_extractor: Some(SliceTransformType::MaxLen(3)) }),
        ("a".to_string(), StoreOptions { raw_mode: true, prefix_extractor: Some(SliceTransformType::NOOP) }),
    ];
    let plan = plan_open(None, Some(StoreOptions::new(true)), Some(cfs)).unwrap();
    assert_eq!(plan.column_families, Some(Choice::Given));
    assert!(!plan.add_default_column_family);
    assert!(plan.config.raw_mode);
    assert_eq!(extractors(&plan.config.prefix_extractors), vec![("a".to_string(), SliceTransformType::NOOP)]);
}

#[test]
fn open_plan_refuses_raw_mode_mismatch() {
    let cfs = vec![("a".to_string(), StoreOptions::new(true))];
    assert_eq!(plan_open(None, None, Some(cfs)).unwrap_err(), StoreError::RawModeMismatch(false));
}

#[test]
fn store_encodes_and_finishes_reads() {
    let s = store(false);
    assert_eq!(s.key_for(&Value::Bool(true)), Ok(vec![5, 1]));
    assert_eq!(s.key_for(&Value::Any(vec![])), Err(StoreError::Codec(CodecError::UnsupportedType)));
    assert_eq!(s.entry_for(&text("k"), &Value::Any(vec![3])), Ok((vec![2, 107], vec![6, 3])));
    assert_eq!(s.range_for(&Value::Bool(false), &Value::Bool(true)), Ok((vec![5, 0], vec![5, 1])));
    assert_eq!(s.bound_for(None), Ok(None));
    assert_eq!(s.bound_for(Some(&Value::Bool(true))), Ok(Some(vec![5, 1])));
    assert_eq!(s.finish_get(Ok(None)), Err(StoreError::NotFound));
    assert_eq!(s.finish_get(Err("boom".to_string())), Err(StoreError::Engine("boom".to_string())));
    let stored = encode_value(&Value::Int(Integer::from_i64(-42)), false).unwrap();
    assert_eq!(s.finish_get(Ok(Some(stored.clone()))), Ok(Value::Int(Integer::from_i64(-42))));
    assert_eq!(s.finish_contains(Ok(Some(stored))), Ok(true));
    assert_eq!(s.finish_contains(Ok(None)), Ok(false));
    assert_eq!(s.keys_for(&vec![text("a"), text("b")]), Ok(vec![vec![2, 97], vec![2, 98]]));
    assert_eq!(s.db(), Ok(&7u32));
}

#[test]
fn closed_store_refuses_everything() {
    let mut s = store(false);
    let it = s.iter().unwrap();
    assert_eq!(s.db_for(it.handle()), Ok(&7u32));
    assert_eq!(it.seek(s.holder(), &text("k")), Ok(Move::Seek(vec![2, 107])));
    assert_eq!(s.close(), Ok(None));
    assert_eq!(s.close(), Err(StoreError::Closed));
    assert_eq!(s.db(), Err(StoreError::Closed));
    assert_eq!(s.db_for(it.handle()), Err(StoreError::Closed));
    assert_eq!(it.seek(s.holder(), &text("k")), Err(StoreError::Closed));
    assert_eq!(s.key_for(&text("k")), Err(StoreError::Closed));
    assert_eq!(s.entry_for(&text("k"), &text("v")), Err(StoreError::Closed));
    assert_eq!(s.keys_for(&vec![text("k")]), Err(StoreError::Closed));
    assert_eq!(s.check_write(&WriteBatch::new(false)), Err(StoreError::Closed));
    assert!(s.iter().is_err());
    assert_eq!(s.create_column_family("c".to_string(), &StoreOptions::new(true)), Err(StoreError::Closed));
    assert_eq!(s.acquire().unwrap_err(), StoreError::Closed);
    assert_eq!(s.release_cursor(it), Some(7u32));
    assert_eq!(s.close(), Err(StoreError::Closed));
    assert_eq!(s.dump_config().raw_mode, false);
}

#[test]
fn store_checks_raw_mode_and_column_families() {
    let mut s = store(true);
    assert_eq!(s.check_raw_mode(false), Err(StoreError::RawModeMismatch(true)));
    assert_eq!(s.check_write(&WriteBatch::new(false)), Err(StoreError::RawModeMismatch(true)));
    assert_eq!(s.check_write(&WriteBatch::new(true)), Ok(()));
    assert_eq!(
        s.create_column_family("c".to_string(), &StoreOptions::new(false)),
        Err(StoreError::RawModeMismatch(true))
    );
    let opts = StoreOptions { raw_mode: true, prefix_extractor: Some(SliceTransformType::Fixed(2)) };
    assert_eq!(s.create_column_family("c".to_string(), &opts), Ok(()));
    let cfg = s.dump_config();
    assert!(cfg.raw_mode);
    assert_eq!(extractors(&cfg.prefix_extractors), vec![("c".to_string(), SliceTransformType::Fixed(2))]);
    assert_eq!(
        s.get_column_family_handle("nope".to_string(), false).unwrap_err(),
        StoreError::ColumnFamilyNotFound("nope".to_string())
    );
    let cf = s.get_column_family_handle("c".to_string(), true).unwrap();
    assert_eq!(cf.name, "c");
    assert_eq!(s.release(cf.handle), None);
}

#[test]
fn access_types() {
    assert_eq!(AccessType::read_write(), AccessType::ReadWrite);
    assert_eq!(AccessType::read_only(true), AccessType::ReadOnly { error_if_log_file_exist: true });
    assert_eq!(AccessType::with_ttl(3600), AccessType::WithTTL { ttl_secs: 3600 });
    assert_eq!(
        AccessType::secondary("/tmp/s".to_string()),
        AccessType::Secondary { secondary_path: "/tmp/s".to_string() }
    );
}

#[test]
fn prefix_extractor_rules() {
    assert!(SliceTransformType::MaxLen(1).is_supported());
    assert!(SliceTransformType::MaxLen(MAX_PREFIX_LEN).is_supported());
    assert!(!SliceTransformType::MaxLen(0).is_supported());
    assert!(!SliceTransformType::MaxLen(129).is_supported());
    assert!(SliceTransformType::Fixed(0).is_supported());
    assert_eq!(max_len_prefix(&[1, 2, 3, 4], 2), &[1, 2]);
    assert_eq!(max_len_prefix(&[1, 2], 5), &[1, 2]);
}

#[test]
fn live_file_bounds_decode() {
    let s = store(false);
    assert_eq!(s.decode_bound(None), Ok(None));
    assert_eq!(s.decode_bound(Some(&[5, 1])), Ok(Some(Value::Bool(true))));
    assert_eq!(s.decode_bound(Some(&[])), Err(StoreError::Codec(CodecError::UnknownTag)));
}

#[test]
fn snapshot_reads_until_close() {
    let mut s = store(false);
    let snap = s.snapshot().unwrap();
    assert_eq!(s.db_for(snap.handle()), Ok(&7u32));
    assert_eq!(snap.key_for(s.holder(), &Value::Bool(true)), Ok(vec![5, 1]));
    assert_eq!(snap.finish_get(Ok(Some(vec![5, 0]))), Ok(Value::Bool(false)));
    assert_eq!(snap.finish_get(Ok(None)), Err(StoreError::NotFound));
    assert_eq!(s.close(), Ok(None));
    assert_eq!(snap.key_for(s.holder(), &Value::Bool(true)), Err(StoreError::Closed));
    assert!(s.snapshot().is_err());
    assert_eq!(s.release(snap.into_handle()), Some(7u32));
}
