use mission_core::dtn::chunk_payload;
use mission_core::dtn::chunk_payload_at;
use mission_core::dtn::verify_ack;
use mission_core::dtn::DtnAck;
use mission_core::dtn::DtnChunk;
use mission_core::dtn::DtnConfig;
use mission_core::dtn::SpoolManager;
use mission_core::dtn::DEFAULT_CHUNK_SIZE;
use mission_core::dtn::TOPIC_ACK;
use mission_core::dtn::TOPIC_STATE;
use mission_core::dtn::TOPIC_TX;
use mission_core::hexcode::HexError;
use mission_core::serde_bytes_compat;
use mission_core::timestamp::Timestamp;
use mission_core::vault::sha256_hex;

fn utc_now() -> Timestamp {
    let now = chrono::Utc::now();
    Timestamp { secs: now.timestamp(), nanos: now.timestamp_subsec_nanos() }
}

fn at(secs: i64) -> Timestamp {
    Timestamp { secs, nanos: 0 }
}

fn owned(names: &[&str]) -> Vec<String> {
    names.iter().map(|n| n.to_string()).collect()
}

#[test]
fn test_chunk_payload_uniform_1mb() {
    let data = vec![0xABu8; 3_145_728]; // exactly 3MB
    let chunks = chunk_payload("test-payload", &data, DEFAULT_CHUNK_SIZE);

    assert_eq!(chunks.len(), 3, "3MB should produce 3 × 1MB chunks");
    for (i, chunk) in chunks.iter().enumerate() {
        assert_eq!(chunk.sequence, i as u64);
        assert_eq!(chunk.total_chunks, 3);
        assert_eq!(chunk.data.len(), DEFAULT_CHUNK_SIZE);
        assert!(!chunk.chunk_hash.is_empty());
    }
}

#[test]
fn test_chunk_payload_partial_last() {
    let data = vec![0xCDu8; 1_500_000]; // 1.5MB → 2 chunks
    let chunks = chunk_payload("partial", &data, DEFAULT_CHUNK_SIZE);

    assert_eq!(chunks.len(), 2);
    assert_eq!(chunks[0].data.len(), DEFAULT_CHUNK_SIZE);
    assert_eq!(chunks[1].data.len(), 1_500_000 - DEFAULT_CHUNK_SIZE);
}

#[test]
fn test_ack_verification_success() {
    let chunk = DtnChunk {
        payload_id: "p1".into(),
        sequence: 0,
        total_chunks: 1,
        chunk_hash: "abc123".into(),
        data: vec![],
        created_at: utc_now(),
    };
    let ack = DtnAck {
        payload_id: "p1".into(),
        sequence: 0,
        received_hash: "abc123".into(),
        acked_at: utc_now(),
    };
    assert!(verify_ack(&chunk, &ack));
}

#[test]
fn test_ack_verification_failure() {
    let chunk = DtnChunk {
        payload_id: "p1".into(),
        sequence: 0,
        total_chunks: 1,
        chunk_hash: "abc123".into(),
        data: vec![],
        created_at: utc_now(),
    };
    let ack = DtnAck {
        payload_id: "p1".into(),
        sequence: 0,
        received_hash: "WRONG".into(),
        acked_at: utc_now(),
    };
    assert!(!verify_ack(&chunk, &ack));
}

#[test]
fn ack_for_another_payload_or_chunk_is_refused() {
    let chunk = &chunk_payload_at("p1", b"abc", 2, at(0))[1];
    let mut ack = DtnAck {
        payload_id: "p1".into(),
        sequence: 1,
        received_hash: sha256_hex(b"c"),
        acked_at: at(1),
    };
    assert!(verify_ack(chunk, &ack));
    ack.sequence = 0;
    assert!(!verify_ack(chunk, &ack));
    ack.sequence = 1;
    ack.payload_id = "p2".into();
    assert!(!verify_ack(chunk, &ack));
    ack.payload_id = "p1".into();
    ack.received_hash = sha256_hex(b"b");
    assert!(!verify_ack(chunk, &ack));
}

#[test]
fn chunk_hash_is_the_sha256_of_the_bytes() {
    let chunks = chunk_payload_at("p", b"abcabc", 3, at(7));
    let known = "ba7816bf8f01cfea414140de5dae2223b00361a396177a9cb410ff61f20015ad";
    assert_eq!(chunks.len(), 2);
    for chunk in &chunks {
        assert_eq!(chunk.chunk_hash, known);
        assert_eq!(chunk.payload_id, "p");
        assert_eq!(chunk.created_at, at(7));
    }
}

#[test]
fn largest_chunk_size_makes_one_chunk() {
    for chunks in [
        chunk_payload("p", &[1u8, 2u8], usize::MAX),
        chunk_payload_at("p", &[1u8, 2u8], usize::MAX, at(0)),
    ] {
        assert_eq!(chunks.len(), 1);
        assert_eq!(chunks[0].data, vec![1, 2]);
        assert_eq!(chunks[0].sequence, 0);
        assert_eq!(chunks[0].total_chunks, 1);
        assert_eq!(chunks[0].chunk_hash.len(), 64);
    }
}

#[test]
fn empty_payload_has_no_chunks() {
    assert!(chunk_payload("empty", b"", DEFAULT_CHUNK_SIZE).is_empty());
}

#[test]
fn chunks_carry_the_whole_payload_in_order() {
    let data: Vec<u8> = (0..=255).collect();
    for size in [1usize, 7, 128, 255, 256, 1000] {
        let chunks = chunk_payload_at("p", &data, size, at(0));
        let mut joined: Vec<u8> = Vec::new();
        for (i, chunk) in chunks.iter().enumerate() {
            assert_eq!(chunk.sequence, i as u64);
            assert_eq!(chunk.total_chunks, chunks.len() as u64);
            joined.extend_from_slice(&chunk.data);
        }
        assert_eq!(joined, data);
    }
}

#[test]
fn chunks_are_stamped_with_the_time_of_the_call() {
    let before = utc_now();
    let chunk = &chunk_payload("p", b"x", 1)[0];
    let after = utc_now();
    assert!((before.secs, before.nanos) <= (chunk.created_at.secs, chunk.created_at.nanos));
    assert!((chunk.created_at.secs, chunk.created_at.nanos) <= (after.secs, after.nanos));
}

#[test]
fn spool_files_are_named_by_payload_and_padded_sequence() {
    let spool = SpoolManager::new("/spool".to_string());
    assert_eq!(spool.spool_dir(), "/spool");
    let chunks = chunk_payload_at("inf-7", b"ab", 1, at(0));
    assert_eq!(spool.spool_chunk(&chunks[1]), "inf-7_000001.chunk");
    assert_eq!(spool.remove_spooled("inf-7", 1), "inf-7_000001.chunk");
    assert_eq!(spool.remove_spooled("inf-7", 123_456), "inf-7_123456.chunk");
    assert_eq!(spool.remove_spooled("inf-7", 1_234_567), "inf-7_1234567.chunk");
    assert_eq!(spool.remove_spooled("x", u64::MAX), "x_18446744073709551615.chunk");
}

#[test]
fn spool_names_differ_between_payloads_and_chunks() {
    let spool = SpoolManager::new("/spool".to_string());
    let names = [
        spool.remove_spooled("a", 1),
        spool.remove_spooled("a", 11),
        spool.remove_spooled("a_000001", 1),
        spool.remove_spooled("a_1", 1),
        spool.remove_spooled("b", 1),
    ];
    for i in 0..names.len() {
        for j in 0..i {
            assert_ne!(names[i], names[j]);
        }
    }
}

#[test]
fn spool_listing_is_filtered_by_prefix_and_suffix() {
    let spool = SpoolManager::new("/spool".to_string());
    let names = owned(&[
        "p_000001.chunk",
        "q_000000.chunk",
        "p_000000.chunk",
        "p_000000.chunk.tmp",
        "p2_000000.chunk",
        "p",
        "p_.chunk",
    ]);
    assert_eq!(
        spool.spooled_names("p", &names),
        owned(&["p_000001.chunk", "p_000000.chunk", "p_.chunk"]),
    );
    assert!(spool.spooled_names("absent", &names).is_empty());
}

#[test]
fn spooled_chunks_come_back_in_order_and_for_the_payload_only() {
    let spool = SpoolManager::new("/spool".to_string());
    let data = b"the quick brown fox";
    let mut read: Vec<DtnChunk> = chunk_payload_at("p", data, 4, at(0));
    read.extend(chunk_payload_at("p_000000", b"other", 2, at(0)));
    read.reverse();
    read.swap(0, 3);
    let loaded = spool.load_spooled("p", read);
    let sequences: Vec<u64> = loaded.iter().map(|c| c.sequence).collect();
    assert_eq!(sequences, vec![0, 1, 2, 3, 4]);
    let joined: Vec<u8> = loaded.iter().flat_map(|c| c.data.clone()).collect();
    assert_eq!(joined, data.to_vec());
}

#[test]
fn chunks_with_equal_sequence_keep_their_order() {
    let spool = SpoolManager::new("/spool".to_string());
    let mut read: Vec<DtnChunk> = Vec::new();
    for (sequence, byte) in [(1u64, 10u8), (0, 20), (1, 30), (0, 40)] {
        let mut chunk = chunk_payload_at("p", &[byte], 1, at(0)).remove(0);
        chunk.sequence = sequence;
        read.push(chunk);
    }
    let bytes: Vec<u8> = spool.load_spooled("p", read).iter().map(|c| c.data[0]).collect();
    assert_eq!(bytes, vec![20, 40, 10, 30]);
}

#[test]
fn dtn_config_has_defaults() {
    let config = DtnConfig::from_env(None, None);
    assert_eq!(config.endpoint, "tcp/127.0.0.1:7447");
    assert_eq!(config.chunk_size, 1_048_576);
    assert_eq!(config.spool_dir, "/var/lib/spaceorb/spool");
}

#[test]
fn dtn_config_takes_what_is_set() {
    let config = DtnConfig::from_env(Some("quic/ground:1".into()), Some("4096".into()));
    assert_eq!(config.endpoint, "quic/ground:1");
    assert_eq!(config.chunk_size, 4096);
    let largest = usize::MAX.to_string();
    assert_eq!(DtnConfig::from_env(None, Some(largest)).chunk_size, usize::MAX);
    assert_eq!(DtnConfig::from_env(None, Some("+12".into())).chunk_size, 12);
    assert_eq!(DtnConfig::from_env(None, Some("007".into())).chunk_size, 7);
}

#[test]
fn chunk_size_that_is_no_number_falls_back() {
    for text in ["", "+", "-1", "1 ", "1e6", "12x", "18446744073709551616", "٣"] {
        let config = DtnConfig::from_env(None, Some(text.to_string()));
        assert_eq!(config.chunk_size, DEFAULT_CHUNK_SIZE, "{text:?}");
        assert!(text.parse::<usize>().is_err());
    }
}

#[test]
fn topics_are_fixed() {
    assert_eq!(TOPIC_TX, "spaceorb/dtn/tx");
    assert_eq!(TOPIC_ACK, "spaceorb/dtn/ack");
    assert_eq!(TOPIC_STATE, "spaceorb/state");
}

#[test]
fn chunk_data_is_written_as_lower_case_hex() {
    assert_eq!(serde_bytes_compat::serialize(&vec![0x00, 0xAB, 0x7F, 0xFF]), "00ab7fff");
    assert_eq!(serde_bytes_compat::serialize(&vec![]), "");
    assert_eq!(serde_bytes_compat::deserialize("00aB7fFF"), Ok(vec![0x00, 0xAB, 0x7F, 0xFF]));
    assert_eq!(serde_bytes_compat::deserialize(""), Ok(vec![]));
}

#[test]
fn chunk_data_survives_its_text_form() {
    let data: Vec<u8> = (0..=255).collect();
    let text = serde_bytes_compat::serialize(&data);
    assert_eq!(serde_bytes_compat::deserialize(&text), Ok(data));
}

#[test]
fn text_that_is_no_hex_is_refused() {
    assert_eq!(serde_bytes_compat::deserialize("abc"), Err(HexError::OddLength));
    assert_eq!(
        serde_bytes_compat::deserialize("0g"),
        Err(HexError::InvalidHexCharacter { c: 'g', index: 1 }),
    );
    assert_eq!(
        serde_bytes_compat::deserialize("zz00"),
        Err(HexError::InvalidHexCharacter { c: 'z', index: 0 }),
    );
    assert_eq!(
        serde_bytes_compat::deserialize("00é"),
        Err(HexError::InvalidHexCharacter { c: 'Ã', index: 2 }),
    );
}
