use ghidra_accounts::store::UserStore;

fn push_str_encoding(out: &mut Vec<u8>, s: &str) {
    let n = s.chars().count() as u64;
    out.extend_from_slice(&n.to_le_bytes());
    for c in s.chars() {
        out.extend_from_slice(&(c as u32).to_le_bytes());
    }
}

fn snapshot_bytes(records: &[(&str, &str)]) -> Vec<u8> {
    let mut out = vec![1u8];
    out.extend_from_slice(&(records.len() as u64).to_le_bytes());
    for (name, hash) in records {
        push_str_encoding(&mut out, name);
        push_str_encoding(&mut out, hash);
    }
    out
}

#[test]
fn round_trip_preserves_hashes_byte_for_byte() {
    let mut store = UserStore::new();
    store
        .new_user(&String::from("alice"), &String::from("pw one"))
        .unwrap();
    store
        .new_user(&String::from("bob"), &String::from("pw two"))
        .unwrap();

    let bytes = store.save();
    let loaded = UserStore::load(&bytes).unwrap();

    let before = store.users();
    let after = loaded.users();
    assert_eq!(before.len(), after.len());
    for (b, a) in before.iter().zip(after.iter()) {
        assert_eq!(b.name, a.name);
        assert_eq!(b.password, a.password);
    }
    assert!(loaded.check_user(&String::from("alice"), &String::from("pw one")));
}

#[test]
fn empty_store_round_trips() {
    let store = UserStore::new();
    let bytes = store.save();
    let loaded = UserStore::load(&bytes).unwrap();
    assert_eq!(loaded.users().len(), 0);
}

#[test]
fn empty_store_saves_to_the_exact_bytes() {
    let mut expected = vec![1u8];
    expected.extend_from_slice(&0u64.to_le_bytes());
    assert_eq!(UserStore::new().save(), expected);
}

#[test]
fn save_writes_the_documented_layout() {
    let crafted = snapshot_bytes(&[("a", "h")]);
    let loaded = UserStore::load(&crafted).unwrap();
    assert_eq!(loaded.users().len(), 1);
    assert_eq!(loaded.users()[0].name, "a");
    assert_eq!(loaded.users()[0].password, "h");
    assert_eq!(loaded.save(), crafted);
}

#[test]
fn load_accepts_unicode_names() {
    let crafted = snapshot_bytes(&[("αβ", "hash"), ("stu", "h2")]);
    let loaded = UserStore::load(&crafted).unwrap();
    assert_eq!(loaded.users()[0].name, "αβ");
    assert_eq!(loaded.users()[1].name, "stu");
    assert_eq!(loaded.save(), crafted);
}

#[test]
fn load_rejects_empty_and_truncated_snapshots() {
    assert!(UserStore::load(&Vec::new()).is_err());
    let mut bytes = snapshot_bytes(&[("a", "h")]);
    bytes.pop();
    assert!(UserStore::load(&bytes).is_err());
}

#[test]
fn load_rejects_a_foreign_version_byte() {
    let mut bytes = snapshot_bytes(&[("a", "h")]);
    bytes[0] = 2;
    assert!(UserStore::load(&bytes).is_err());
}

#[test]
fn load_rejects_trailing_bytes() {
    let mut bytes = snapshot_bytes(&[("a", "h")]);
    bytes.push(0);
    assert!(UserStore::load(&bytes).is_err());
}

#[test]
fn load_rejects_a_surrogate_code_point() {
    let mut bytes = vec![1u8];
    bytes.extend_from_slice(&1u64.to_le_bytes());
    bytes.extend_from_slice(&1u64.to_le_bytes());
    bytes.extend_from_slice(&0xD800u32.to_le_bytes());
    push_str_encoding(&mut bytes, "h");
    assert!(UserStore::load(&bytes).is_err());
}

#[test]
fn load_rejects_duplicate_names() {
    let bytes = snapshot_bytes(&[("a", "h1"), ("a", "h2")]);
    assert!(UserStore::load(&bytes).is_err());
}

#[test]
fn load_rejects_an_overlong_record_count() {
    let mut bytes = vec![1u8];
    bytes.extend_from_slice(&3u64.to_le_bytes());
    push_str_encoding(&mut bytes, "a");
    push_str_encoding(&mut bytes, "h");
    assert!(UserStore::load(&bytes).is_err());
}
