use aes_gcm::aead::Aead;
use aes_gcm::aead::KeyInit;
use aes_gcm::Aes256Gcm;
use aes_gcm::Nonce;
use mission_core::hexcode::HexError;
use mission_core::ingest::FailedStep;
use mission_core::ingest::Ingest;
use mission_core::ingest::IngestStep;
use mission_core::recovery::recover_orphaned_pending;
use mission_core::recovery::recovered_name;
use mission_core::recovery::Repair;
use mission_core::recovery::Verdict;
use mission_core::storage::Drive;
use mission_core::storage::StoreOp;
use mission_core::vault::sha256_hex;
use mission_core::vault::write_pending;
use mission_core::vault::ProcessedPayload;
use mission_core::vault::Vault;
use mission_core::vault::VaultConfig;
use mission_core::vault::VaultConfigError;
use mission_core::vault::VaultError;
use std::collections::BTreeMap;

/// Drives that live in memory.
#[derive(Clone, Default)]
struct Drives {
    ram: BTreeMap<String, Vec<u8>>,
    primary: BTreeMap<String, Vec<u8>>,
    mirror: BTreeMap<String, Vec<u8>>,
}

impl Drives {
    fn drive(&mut self, drive: Drive) -> &mut BTreeMap<String, Vec<u8>> {
        match drive {
            Drive::RamShield => &mut self.ram,
            Drive::Primary => &mut self.primary,
            Drive::Mirror => &mut self.mirror,
        }
    }

    fn perform(&mut self, op: &StoreOp) -> bool {
        match op {
            StoreOp::Write { drive, name, data } => {
                self.drive(*drive).insert(name.clone(), data.to_vec());
                true
            }
            StoreOp::Fsync { drive, name } => self.drive(*drive).contains_key(name),
            StoreOp::Rename { drive, from, to } => match self.drive(*drive).remove(from) {
                Some(data) => {
                    self.drive(*drive).insert(to.clone(), data);
                    true
                }
                None => false,
            },
            StoreOp::SyncDir { .. } => true,
            StoreOp::Remove { drive, name } => self.drive(*drive).remove(name).is_some(),
        }
    }

    /// Runs an ingest for at most so many steps.
    fn ingest(&mut self, vault: &Vault, ingest: &mut Ingest, steps: usize) {
        for _ in 0..steps {
            if ingest.step() == IngestStep::Process {
                ingest.process(vault);
                continue;
            }
            let ok = match ingest.next_op() {
                Some(op) => self.perform(&op),
                None => return,
            };
            ingest.advance(ok);
        }
    }

    fn recover(&mut self) -> usize {
        let primary: Vec<String> = self.primary.keys().cloned().collect();
        let mirror: Vec<String> = self.mirror.keys().cloned().collect();
        let mut recovery = recover_orphaned_pending(&primary, &mirror);
        loop {
            let name = match recovery.current() {
                Some(name) => name.clone(),
                None => return recovery.recovered(),
            };
            let mut repair = Repair::begin(
                &name,
                self.primary.get(&name).cloned(),
                self.mirror.get(&name).cloned(),
            );
            loop {
                let ok = match repair.next_op() {
                    Some(op) => self.perform(&op),
                    None => break,
                };
                repair.advance(ok);
            }
            assert!(!repair.failed(), "{name}");
            recovery.conclude(&repair);
        }
    }
}

fn test_config() -> VaultConfig {
    VaultConfig {
        aes_key: vec![0x42; 32],
        ram_shield: "ram_shield".into(),
        usb_primary: "usb_primary".into(),
        usb_mirror: "usb_mirror".into(),
    }
}

#[test]
fn test_full_ingest_pipeline() {
    let mut drives = Drives::default();
    let vault = Vault::new(test_config()).expect("vault init");

    let mut ingest = vault.ingest("test-001", b"Hello, SpaceOrb!");
    drives.ingest(&vault, &mut ingest, 100);
    let result = ingest.sealed();
    assert!(result.is_some(), "ingest failed: {:?}", ingest.step());

    let sealed = result.expect("already checked");
    assert_eq!(sealed, "test-001.sealed");

    // Verify .sealed files exist on both USBs
    assert!(drives.primary.contains_key(&sealed));
    assert!(drives.mirror.contains_key(&sealed));

    // Verify .pending files were cleaned up
    assert!(!drives.primary.contains_key("test-001.pending"));
    assert!(!drives.mirror.contains_key("test-001.pending"));

    // Verify staged file was cleaned up
    assert!(!drives.ram.contains_key("test-001.staged"));
}

#[test]
fn sealed_file_decrypts_to_the_payload() {
    let mut drives = Drives::default();
    let vault = Vault::new(test_config()).unwrap();
    let raw = b"telemetry telemetry telemetry telemetry".to_vec();
    drives.ingest(&vault, &mut vault.ingest("t", &raw), 100);
    let file = drives.primary["t.sealed"].clone();
    assert_eq!(file, drives.mirror["t.sealed"]);
    assert_eq!(&file[..4], &[64, 0, 0, 0]);
    assert_eq!(std::str::from_utf8(&file[4..68]).unwrap(), sha256_hex(&raw));
    let cipher = Aes256Gcm::new_from_slice(&[0x42; 32]).unwrap();
    let compressed = cipher.decrypt(Nonce::from_slice(&file[68..80]), &file[80..]).unwrap();
    assert_eq!(zstd::decode_all(&compressed[..]).unwrap(), raw);
}

#[test]
fn ingest_takes_its_steps_in_order() {
    let mut drives = Drives::default();
    let vault = Vault::new(test_config()).unwrap();
    let mut ingest = vault.ingest("x", b"abc");
    let order = [
        IngestStep::Stage,
        IngestStep::Process,
        IngestStep::Unstage,
        IngestStep::PendingPrimary,
        IngestStep::PendingMirror,
        IngestStep::FsyncPrimary,
        IngestStep::FsyncMirror,
        IngestStep::CommitPrimary,
        IngestStep::CommitMirror,
        IngestStep::SyncPrimary,
        IngestStep::SyncMirror,
        IngestStep::Sealed,
        IngestStep::Sealed,
    ];
    for step in order {
        assert_eq!(ingest.step(), step);
        assert_eq!(ingest.sealed().is_some(), step == IngestStep::Sealed);
        drives.ingest(&vault, &mut ingest, 1);
    }
}

#[test]
fn failed_operation_ends_the_ingest() {
    let vault = Vault::new(test_config()).unwrap();
    let failures = [
        (0, FailedStep::Stage),
        (3, FailedStep::PendingPrimary),
        (4, FailedStep::PendingMirror),
        (5, FailedStep::FsyncPrimary),
        (6, FailedStep::FsyncMirror),
        (7, FailedStep::CommitPrimary),
        (8, FailedStep::CommitMirror),
        (9, FailedStep::SyncPrimary),
        (10, FailedStep::SyncMirror),
    ];
    for (steps, failed) in failures {
        let mut drives = Drives::default();
        let mut ingest = vault.ingest("x", b"abc");
        drives.ingest(&vault, &mut ingest, steps);
        ingest.advance(false);
        assert_eq!(ingest.step(), IngestStep::Failed(failed));
        assert!(ingest.next_op().is_none());
        assert!(ingest.sealed().is_none());
    }
}

#[test]
fn staged_file_that_cannot_be_removed_stops_nothing() {
    let vault = Vault::new(test_config()).unwrap();
    let mut drives = Drives::default();
    let mut ingest = vault.ingest("x", b"abc");
    drives.ingest(&vault, &mut ingest, 2);
    assert_eq!(ingest.step(), IngestStep::Unstage);
    ingest.advance(false);
    assert_eq!(ingest.step(), IngestStep::PendingPrimary);
}

#[test]
fn failed_processing_ends_the_ingest() {
    let vault = Vault::new(test_config()).unwrap();
    for e in [VaultError::Compression, VaultError::Encryption] {
        let mut ingest = vault.ingest("x", b"abc");
        ingest.advance(true);
        ingest.accept(Err(e));
        assert_eq!(ingest.step(), IngestStep::Failed(FailedStep::Process(e)));
    }
}

#[test]
fn crash_after_any_step_leaves_the_file_recoverable_once_it_was_flushed() {
    let vault = Vault::new(test_config()).unwrap();
    for steps in 0..=11 {
        let mut drives = Drives::default();
        let mut ingest = vault.ingest("crash", b"must survive");
        drives.ingest(&vault, &mut ingest, steps);
        let recovered = drives.recover();
        assert!(!drives.primary.contains_key("crash.pending"));
        assert!(!drives.mirror.contains_key("crash.pending"));
        if steps >= 4 {
            let file = drives.primary["crash.sealed"].clone();
            assert_eq!(file, drives.mirror["crash.sealed"]);
            assert!(!file.is_empty());
        } else {
            assert_eq!(recovered, 0);
        }
    }
}

#[test]
fn commit_that_a_power_loss_takes_back_is_recovered() {
    let vault = Vault::new(test_config()).unwrap();
    let mut drives = Drives::default();
    let mut ingest = vault.ingest("x", b"must survive");
    drives.ingest(&vault, &mut ingest, 8);
    assert_eq!(ingest.step(), IngestStep::CommitMirror);
    let file = drives.primary.remove("x.sealed").unwrap();
    drives.primary.insert("x.pending".into(), file.clone());
    assert_eq!(drives.recover(), 1);
    assert_eq!(drives.primary["x.sealed"], file);
    assert_eq!(drives.mirror["x.sealed"], file);
}

#[test]
fn key_must_have_thirty_two_bytes() {
    for n in [0usize, 16, 31, 33, 64] {
        let mut config = test_config();
        config.aes_key = vec![1; n];
        assert_eq!(Vault::new(config).err(), Some(VaultError::InvalidKeyLength));
    }
    assert_eq!(Vault::new(test_config()).unwrap().config().aes_key.len(), 32);
}

#[test]
fn nonces_differ_between_payloads() {
    let vault = Vault::new(test_config()).unwrap();
    let a = vault.process(b"same").unwrap();
    let b = vault.process(b"same").unwrap();
    assert_eq!(a.nonce.len(), 12);
    assert_ne!(a.nonce, b.nonce);
    assert_eq!(a.sha256_hex, b.sha256_hex);
}

#[test]
fn compressed_payload_is_encrypted_under_the_given_nonce() {
    let vault = Vault::new(test_config()).unwrap();
    let sealed = vault.encrypt_compressed("hash".into(), b"frame", vec![7; 12]).unwrap();
    assert_eq!(sealed.sha256_hex, "hash");
    assert_eq!(sealed.nonce, vec![7; 12]);
    assert_eq!(sealed.ciphertext.len(), 5 + 16);
    let cipher = Aes256Gcm::new_from_slice(&[0x42; 32]).unwrap();
    let plain = cipher.decrypt(Nonce::from_slice(&[7; 12]), sealed.ciphertext.as_slice()).unwrap();
    assert_eq!(plain, b"frame");
}

#[test]
fn sha256_is_written_in_lower_case_hex() {
    assert_eq!(
        sha256_hex(b""),
        "e3b0c44298fc1c149afbf4c8996fb92427ae41e4649b934ca495991b7852b855",
    );
}

#[test]
fn vault_file_layout_is_exact() {
    let payload = ProcessedPayload {
        ciphertext: vec![9, 8],
        nonce: vec![1; 12],
        sha256_hex: "ab".into(),
    };
    let mut expected = vec![2, 0, 0, 0, b'a', b'b'];
    expected.extend([1u8; 12]);
    expected.extend([9, 8]);
    assert_eq!(write_pending(&payload), expected);
    let long = ProcessedPayload { sha256_hex: "x".repeat(300), ..payload };
    assert_eq!(&write_pending(&long)[..4], &[44, 1, 0, 0]);
}

#[test]
fn vault_config_reads_the_environment() {
    let key = "0F".repeat(32);
    let config = VaultConfig::from_env(Some(key), None, Some("/p".into()), None).unwrap();
    assert_eq!(config.aes_key, vec![15; 32]);
    assert_eq!(config.ram_shield, "/mnt/ram_shield");
    assert_eq!(config.usb_primary, "/p");
    assert_eq!(config.usb_mirror, "/mnt/usb_mirror");
    let config = VaultConfig::from_env(Some("00".repeat(32)), Some("/r".into()), None, Some("/m".into()));
    let config = config.unwrap();
    assert_eq!(config.ram_shield, "/r");
    assert_eq!(config.usb_primary, "/mnt/usb_primary");
    assert_eq!(config.usb_mirror, "/m");
}

#[test]
fn vault_config_refuses_bad_keys() {
    let read = |key: Option<&str>| {
        VaultConfig::from_env(key.map(|k| k.to_string()), None, None, None).err()
    };
    assert_eq!(read(None), Some(VaultConfigError::KeyMissing));
    assert_eq!(read(Some("abc")), Some(VaultConfigError::KeyNotHex(HexError::OddLength)));
    assert_eq!(
        read(Some("0x")),
        Some(VaultConfigError::KeyNotHex(HexError::InvalidHexCharacter { c: 'x', index: 1 })),
    );
    assert_eq!(read(Some("")), Some(VaultConfigError::KeyLength(0)));
    assert_eq!(read(Some(&"ab".repeat(31))), Some(VaultConfigError::KeyLength(31)));
}

#[test]
fn pending_files_of_both_vaults_are_found_once() {
    let names = |list: &[&str]| list.iter().map(|n| n.to_string()).collect::<Vec<String>>();
    let primary = names(&["a.pending", "b.sealed", "c.pending"]);
    let mirror = names(&["d.pending", "c.pending", "pending"]);
    let mut recovery = recover_orphaned_pending(&primary, &mirror);
    let mut found: Vec<String> = Vec::new();
    while let Some(name) = recovery.current() {
        found.push(name.clone());
        let repair = Repair::begin("x.pending", None, None);
        recovery.conclude(&repair);
    }
    assert_eq!(found, vec!["a.pending", "c.pending", "d.pending"]);
    assert_eq!(recovery.recovered(), 0);
}

#[test]
fn matching_pending_files_are_committed() {
    let mut drives = Drives::default();
    drives.primary.insert("a.pending".into(), vec![1, 2]);
    drives.mirror.insert("a.pending".into(), vec![1, 2]);
    assert_eq!(drives.recover(), 1);
    assert_eq!(drives.primary["a.sealed"], vec![1, 2]);
    assert_eq!(drives.mirror["a.sealed"], vec![1, 2]);
    assert_eq!(drives.recover(), 0);
}

#[test]
fn lone_pending_file_is_copied_to_the_other_vault() {
    let mut drives = Drives::default();
    drives.primary.insert("a.pending".into(), vec![1]);
    drives.mirror.insert("b.pending".into(), vec![2]);
    assert_eq!(drives.recover(), 2);
    for vault in [&drives.primary, &drives.mirror] {
        assert_eq!(vault["a.sealed"], vec![1]);
        assert_eq!(vault["b.sealed"], vec![2]);
        assert_eq!(vault.len(), 2);
    }
}

#[test]
fn differing_pending_files_are_left_alone() {
    let mut drives = Drives::default();
    drives.primary.insert("a.pending".into(), vec![1]);
    drives.mirror.insert("a.pending".into(), vec![2]);
    let before = drives.clone();
    assert_eq!(drives.recover(), 0);
    assert_eq!(drives.primary, before.primary);
    assert_eq!(drives.mirror, before.mirror);
}

#[test]
fn many_pending_files_are_recovered_together() {
    let mut drives = Drives::default();
    for i in 0..5u8 {
        drives.primary.insert(format!("f{i}.pending"), vec![i]);
        if i % 2 == 0 {
            drives.mirror.insert(format!("f{i}.pending"), vec![i]);
        }
    }
    drives.mirror.insert("f4.sealed".into(), vec![99]);
    drives.primary.insert("other.sealed".into(), vec![7]);
    drives.primary.insert("x.pending".into(), vec![1]);
    drives.mirror.insert("x.pending".into(), vec![2]);
    assert_eq!(drives.recover(), 5);
    for i in 0..5u8 {
        for vault in [&drives.primary, &drives.mirror] {
            assert_eq!(vault[&format!("f{i}.sealed")], vec![i]);
            assert!(!vault.contains_key(&format!("f{i}.pending")));
        }
    }
    assert_eq!(drives.primary["other.sealed"], vec![7]);
    assert!(!drives.mirror.contains_key("other.sealed"));
    assert_eq!(drives.primary["x.pending"], vec![1]);
    let settled = drives.clone();
    assert_eq!(drives.recover(), 0);
    assert_eq!(drives.primary, settled.primary);
    assert_eq!(drives.mirror, settled.mirror);
}

#[test]
fn file_that_is_gone_ends_the_recovery() {
    let repair = Repair::begin("a.pending", None, None);
    assert!(repair.failed());
    assert!(!repair.recovered());
    assert!(repair.next_op().is_none());
}

#[test]
fn ingest_under_a_used_id_replaces_the_sealed_file_at_the_commit() {
    let vault = Vault::new(test_config()).unwrap();
    for steps in 0..=11 {
        let mut drives = Drives::default();
        drives.primary.insert("x.sealed".into(), vec![1]);
        drives.mirror.insert("x.sealed".into(), vec![1]);
        drives.ingest(&vault, &mut vault.ingest("x", b"new"), steps);
        assert_eq!(drives.primary["x.sealed"] == vec![1], steps < 8);
        assert_eq!(drives.mirror["x.sealed"] == vec![1], steps < 9);
        if steps >= 5 {
            drives.recover();
            assert_eq!(drives.primary["x.sealed"], drives.mirror["x.sealed"]);
            assert_ne!(drives.primary["x.sealed"], vec![1]);
        }
    }
}

#[test]
fn verdicts_follow_from_the_contents() {
    let verdict = |p: Option<Vec<u8>>, m: Option<Vec<u8>>| Repair::begin("x.pending", p, m).verdict();
    assert_eq!(verdict(Some(vec![1]), Some(vec![1])), Verdict::Commit);
    assert_eq!(verdict(Some(vec![1]), Some(vec![1, 1])), Verdict::Conflict);
    assert_eq!(verdict(Some(vec![]), None), Verdict::CopyToMirror);
    assert_eq!(verdict(None, Some(vec![])), Verdict::CopyToPrimary);
    assert_eq!(verdict(None, None), Verdict::Gone);
}

#[test]
fn failed_repair_is_not_counted() {
    let names = vec!["a.pending".to_string()];
    let mut recovery = recover_orphaned_pending(&names, &names);
    let mut repair = Repair::begin("a.pending", Some(vec![1]), Some(vec![1]));
    repair.advance(true);
    repair.advance(false);
    assert!(repair.failed());
    assert!(!repair.recovered());
    assert!(repair.next_op().is_none());
    recovery.conclude(&repair);
    assert_eq!(recovery.recovered(), 0);
}

#[test]
fn recovered_name_drops_the_pending_suffix() {
    assert_eq!(recovered_name("a.pending"), "a.sealed");
    assert_eq!(recovered_name("a.pending.pending"), "a.pending.sealed");
    assert_eq!(recovered_name(".pending"), ".sealed");
    assert_eq!(recovered_name("é.pending"), "é.sealed");
    assert_eq!(recovered_name("a"), "a.sealed");
}

#[test]
fn recovery_of_an_id_that_ends_like_a_pending_file_spares_other_files() {
    let mut drives = Drives::default();
    drives.primary.insert("a.sealed".into(), vec![1]);
    drives.mirror.insert("a.sealed".into(), vec![1]);
    drives.primary.insert("a.pending.pending".into(), vec![2]);
    assert_eq!(drives.recover(), 1);
    for vault in [&drives.primary, &drives.mirror] {
        assert_eq!(vault["a.sealed"], vec![1]);
        assert_eq!(vault["a.pending.sealed"], vec![2]);
    }
}
