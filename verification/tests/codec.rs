use ubiblk::compression::ArchiveCompressionAlgorithm;
use ubiblk::crypt::{CipherMethod, CryptError, KeyEncryptionCipher, XtsBlockCipher};
use ubiblk::io::Clock;
use ubiblk::metadata::shared_state::SpillCounters;
use ubiblk::spill::codec::{
    object_crc32, parse_spill_object_name, spill_kek, spill_key_object_name, spill_object_name,
    unwrap_spill_key, wrap_spill_key, SpillCodec, SpillError, SpillObjectHeader, SPILL_HEADER_LEN,
    SPILL_OBJECT_VERSION,
};
use ubiblk::spill::spill_flags;
use ubiblk::SECTOR_SIZE;

/// A clock that moves on by one each time it is read.
struct Ticks {
    now: u64,
}

impl Clock for Ticks {
    fn now_ns(&mut self) -> u64 {
        self.now += 1;
        self.now
    }
}

const STRIPE_SECTORS: u64 = 8;
const STRIPE_SIZE: usize = STRIPE_SECTORS as usize * SECTOR_SIZE;

fn stripe_data(seed: u8) -> Vec<u8> {
    (0..STRIPE_SIZE)
        .map(|i| (i as u8).wrapping_mul(31).wrapping_add(seed))
        .collect()
}

fn zstd() -> ArchiveCompressionAlgorithm {
    ArchiveCompressionAlgorithm::Zstd { level: 3 }
}

fn cipher() -> XtsBlockCipher {
    XtsBlockCipher::new(vec![0x11; 32], vec![0x22; 32]).unwrap()
}

fn roundtrip(compression: ArchiveCompressionAlgorithm, cipher: Option<XtsBlockCipher>) {
    let mut counters = SpillCounters::default();
    let mut clock = Ticks { now: 0 };
    let codec = SpillCodec::new(compression, cipher, STRIPE_SECTORS);
    let data = stripe_data(7);

    let object = codec.encode_timed(3, &data, &mut clock, &mut counters).unwrap();
    let header = SpillObjectHeader::decode(&object).unwrap();
    assert_eq!(header.stripe_index, 3);
    assert_eq!(header.uncompressed_len as usize, STRIPE_SIZE);
    assert_eq!(header.payload_len as usize, object.len() - SPILL_HEADER_LEN);
    assert_eq!(
        header.flags & spill_flags::ZSTD != 0,
        matches!(codec.compression, ArchiveCompressionAlgorithm::Zstd { .. })
    );
    assert_eq!(header.flags & spill_flags::XTS != 0, codec.cipher.is_some());
    if codec.cipher.is_some() || header.flags & spill_flags::ZSTD != 0 {
        assert_ne!(
            &object[SPILL_HEADER_LEN..],
            &data[..],
            "payload is transformed"
        );
    }

    let mut dst = vec![0xAAu8; STRIPE_SIZE];
    let n = codec
        .decode_into_timed(3, &object, &mut dst, &mut clock, &mut counters)
        .unwrap();
    assert_eq!(n, STRIPE_SIZE);
    assert_eq!(dst, data);
    assert!(counters.encode_ns > 0);
    assert!(counters.decode_ns > 0);
}

#[test]
fn header_roundtrip() {
    let header = SpillObjectHeader {
        flags: spill_flags::ZSTD | spill_flags::XTS,
        stripe_index: 0x0102_0304_0506_0708,
        uncompressed_len: 4096,
        payload_len: 1536,
        crc32: 0xDEAD_BEEF,
    };
    let bytes = header.encode();
    assert_eq!(bytes.len(), SPILL_HEADER_LEN);
    assert_eq!(&bytes[0..8], b"UBISPILL");
    assert_eq!(&bytes[8..10], &SPILL_OBJECT_VERSION.to_le_bytes());
    assert_eq!(&bytes[12..16], &[0, 0, 0, 0]);
    assert_eq!(SpillObjectHeader::decode(&bytes).unwrap(), header);
    // Trailing payload bytes do not disturb the header.
    let mut with_payload = bytes.to_vec();
    with_payload.extend_from_slice(&[1, 2, 3]);
    assert_eq!(SpillObjectHeader::decode(&with_payload).unwrap(), header);
}

#[test]
fn header_rejects_bad_magic_version_reserved() {
    let header = SpillObjectHeader {
        flags: 0,
        stripe_index: 1,
        uncompressed_len: 512,
        payload_len: 512,
        crc32: 0,
    };
    let good = header.encode();

    let mut bad_magic = good;
    bad_magic[0] = b'X';
    let err = SpillObjectHeader::decode(&bad_magic)
        .unwrap_err()
        .describe();
    assert!(err.contains("magic mismatch"), "{err}");

    let mut bad_version = good;
    bad_version[8..10].copy_from_slice(&(SPILL_OBJECT_VERSION + 1).to_le_bytes());
    let err = SpillObjectHeader::decode(&bad_version)
        .unwrap_err()
        .describe();
    assert!(err.contains("unsupported spill object version 2"), "{err}");

    let mut bad_reserved = good;
    bad_reserved[13] = 1;
    let err = SpillObjectHeader::decode(&bad_reserved)
        .unwrap_err()
        .describe();
    assert!(err.contains("reserved field"), "{err}");

    let err = SpillObjectHeader::decode(&good[..SPILL_HEADER_LEN - 1])
        .unwrap_err()
        .describe();
    assert!(err.contains("too short"), "{err}");
}

#[test]
fn codec_roundtrip_none() {
    roundtrip(ArchiveCompressionAlgorithm::Off, None);
}

#[test]
fn codec_roundtrip_zstd() {
    roundtrip(zstd(), None);
}

#[test]
fn codec_roundtrip_xts() {
    roundtrip(ArchiveCompressionAlgorithm::Off, Some(cipher()));
}

#[test]
fn codec_roundtrip_zstd_xts() {
    roundtrip(zstd(), Some(cipher()));
}

#[test]
fn codec_rejects_crc_flip() {
    let codec = SpillCodec::new(zstd(), Some(cipher()), STRIPE_SECTORS);
    let data = stripe_data(1);
    let mut object = codec.encode(2, &data).unwrap();
    let mut dst = vec![0u8; STRIPE_SIZE];

    // A flipped payload bit.
    object[SPILL_HEADER_LEN + 10] ^= 0x01;
    let err = codec
        .decode_into(2, &object, &mut dst)
        .unwrap_err()
        .describe();
    assert!(err.contains("crc32 mismatch"), "{err}");
    object[SPILL_HEADER_LEN + 10] ^= 0x01;

    // A flipped header bit (uncompressed_len) is caught by the CRC too.
    object[24] ^= 0x01;
    let err = codec
        .decode_into(2, &object, &mut dst)
        .unwrap_err()
        .describe();
    assert!(err.contains("crc32 mismatch"), "{err}");
    object[24] ^= 0x01;

    assert!(codec.decode_into(2, &object, &mut dst).is_ok());
}

#[test]
fn codec_rejects_stripe_index_mismatch_before_decrypt() {
    let codec = SpillCodec::new(
        ArchiveCompressionAlgorithm::Off,
        Some(cipher()),
        STRIPE_SECTORS,
    );
    let data = stripe_data(2);
    let object = codec.encode(3, &data).unwrap();
    let mut dst = vec![0xAAu8; STRIPE_SIZE];

    let err = codec
        .decode_into(4, &object, &mut dst)
        .unwrap_err()
        .describe();
    assert!(
        err.contains("for stripe 3 but stripe 4 was requested"),
        "{err}"
    );
    assert!(dst.iter().all(|&b| b == 0xAA), "no plaintext was produced");

    // Decrypting under the wrong tweak would be silently wrong; the index
    // check is what stops it.
    assert!(codec.decode_into(3, &object, &mut dst).is_ok());
    assert_eq!(dst, data);
}

#[test]
fn codec_rejects_truncated_object() {
    let codec = SpillCodec::new(zstd(), None, STRIPE_SECTORS);
    let object = codec.encode(1, &stripe_data(3)).unwrap();
    let mut dst = vec![0u8; STRIPE_SIZE];

    let err = codec
        .decode_into(1, &object[..object.len() - 1], &mut dst)
        .unwrap_err()
        .describe();
    assert!(err.contains("does not match header + payload"), "{err}");

    let mut longer = object.clone();
    longer.push(0);
    let err = codec
        .decode_into(1, &longer, &mut dst)
        .unwrap_err()
        .describe();
    assert!(err.contains("does not match header + payload"), "{err}");

    let err = codec
        .decode_into(1, &object[..20], &mut dst)
        .unwrap_err()
        .describe();
    assert!(err.contains("too short"), "{err}");
}

#[test]
fn codec_zero_fills_short_last_stripe() {
    for compression in [ArchiveCompressionAlgorithm::Off, zstd()] {
        let codec = SpillCodec::new(compression, Some(cipher()), STRIPE_SECTORS);
        let short = &stripe_data(4)[..3 * SECTOR_SIZE];
        let object = codec.encode(9, short).unwrap();

        let mut dst = vec![0xAAu8; STRIPE_SIZE];
        let n = codec.decode_into(9, &object, &mut dst).unwrap();
        assert_eq!(n, 3 * SECTOR_SIZE);
        assert_eq!(&dst[..n], short);
        assert!(dst[n..].iter().all(|&b| b == 0));
    }
}

#[test]
fn codec_rejects_uncompressed_len_mismatch() {
    let codec = SpillCodec::new(zstd(), None, STRIPE_SECTORS);
    let data = stripe_data(5);
    let object = codec.encode(1, &data).unwrap();
    let mut dst = vec![0u8; STRIPE_SIZE];

    // Rewrite the header to claim one sector less, with a matching CRC, so
    // only the length check can catch it.
    let mut header = SpillObjectHeader::decode(&object).unwrap();
    header.uncompressed_len -= SECTOR_SIZE as u32;
    header.crc32 = object_crc32(&header.encode(), &object[SPILL_HEADER_LEN..]);
    let mut forged = header.encode().to_vec();
    forged.extend_from_slice(&object[SPILL_HEADER_LEN..]);
    let err = codec
        .decode_into(1, &forged, &mut dst)
        .unwrap_err()
        .describe();
    assert!(err.contains("but its header says"), "{err}");

    // A destination that cannot hold the stripe is refused up front.
    let mut small = vec![0u8; STRIPE_SIZE - SECTOR_SIZE];
    let err = codec
        .decode_into(1, &object, &mut small)
        .unwrap_err()
        .describe();
    assert!(err.contains("is invalid for a"), "{err}");
}

#[test]
fn codec_rejects_bad_length_input_and_unknown_flags() {
    let codec = SpillCodec::new(ArchiveCompressionAlgorithm::Off, None, STRIPE_SECTORS);
    assert!(codec.encode(0, &[]).is_err());
    assert!(codec.encode(0, &[0u8; SECTOR_SIZE + 1]).is_err());

    let object = codec.encode(1, &stripe_data(6)).unwrap();
    let mut header = SpillObjectHeader::decode(&object).unwrap();
    header.flags |= 1 << 5;
    header.crc32 = object_crc32(&header.encode(), &object[SPILL_HEADER_LEN..]);
    let mut forged = header.encode().to_vec();
    forged.extend_from_slice(&object[SPILL_HEADER_LEN..]);
    let mut dst = vec![0u8; STRIPE_SIZE];
    let err = codec
        .decode_into(1, &forged, &mut dst)
        .unwrap_err()
        .describe();
    assert!(err.contains("unknown flags"), "{err}");
}

#[test]
fn codec_key_presence_must_match_object() {
    let data = stripe_data(8);
    let plain_codec =
        SpillCodec::new(ArchiveCompressionAlgorithm::Off, None, STRIPE_SECTORS);
    let keyed_codec = SpillCodec::new(
        ArchiveCompressionAlgorithm::Off,
        Some(cipher()),
        STRIPE_SECTORS,
    );
    let plain_object = plain_codec.encode(1, &data).unwrap();
    let keyed_object = keyed_codec.encode(1, &data).unwrap();
    let mut dst = vec![0u8; STRIPE_SIZE];

    let err = keyed_codec
        .decode_into(1, &plain_object, &mut dst)
        .unwrap_err()
        .describe();
    assert!(
        err.contains("not encrypted but this device has a spill key"),
        "{err}"
    );
    let err = plain_codec
        .decode_into(1, &keyed_object, &mut dst)
        .unwrap_err()
        .describe();
    assert!(
        err.contains("encrypted but this device has no spill key"),
        "{err}"
    );

    // A different key fails on the compressed framing rather than
    // returning garbage.
    let other = XtsBlockCipher::new(vec![0x33; 32], vec![0x44; 32]).unwrap();
    let wrong_key = SpillCodec::new(zstd(), Some(other), STRIPE_SECTORS);
    let right_key = SpillCodec::new(zstd(), Some(cipher()), STRIPE_SECTORS);
    let object = right_key.encode(1, &data).unwrap();
    assert!(wrong_key.decode_into(1, &object, &mut dst).is_err());
}

#[test]
fn codec_decodes_by_object_flags_not_current_setting() {
    let data = stripe_data(9);
    let writer = SpillCodec::new(zstd(), None, STRIPE_SECTORS);
    let object = writer.encode(1, &data).unwrap();

    let reader = SpillCodec::new(ArchiveCompressionAlgorithm::Off, None, STRIPE_SECTORS);
    let mut dst = vec![0u8; STRIPE_SIZE];
    reader.decode_into(1, &object, &mut dst).unwrap();
    assert_eq!(dst, data);
}

#[test]
fn object_name_roundtrip() {
    assert_eq!(spill_object_name("fork-3f9c", 17), "fork-3f9c/17");
    assert_eq!(spill_key_object_name("fork-3f9c"), "fork-3f9c/spill-key");
    assert_eq!(parse_spill_object_name("fork-3f9c/17"), Some(17));
    assert_eq!(
        parse_spill_object_name(&spill_object_name("dev", 0)),
        Some(0)
    );
    assert_eq!(parse_spill_object_name("fork-3f9c/spill-key"), None);
    assert_eq!(parse_spill_object_name("fork-3f9c/"), None);
    assert_eq!(parse_spill_object_name("42"), Some(42));
}

/// A stripe has one name: no sign, no leading zero.
#[test]
fn object_names_denote_one_stripe_each() {
    for name in [
        "fork-3f9c/+17",
        "fork-3f9c/-17",
        "fork-3f9c/017",
        "fork-3f9c/00",
        "fork-3f9c/1 7",
        "fork-3f9c/+",
        "fork-3f9c/99999999999999999999999",
        "",
    ] {
        assert_eq!(parse_spill_object_name(name), None, "{name:?}");
    }
    assert_eq!(parse_spill_object_name("fork-3f9c/0"), Some(0));
    assert_eq!(
        parse_spill_object_name(&spill_object_name("a/b", usize::MAX)),
        Some(usize::MAX)
    );
}

/// A key-encryption cipher that cannot seal says why, before anything is drawn.
#[test]
fn unusable_kek_names_its_own_error() {
    let cipher = XtsBlockCipher::random().unwrap();
    let kek = |key: Option<Vec<u8>>, auth_data: Option<Vec<u8>>| KeyEncryptionCipher {
        method: CipherMethod::Aes256Gcm,
        key,
        auth_data,
    };
    let auth = || Some(b"ubiblk_spill".to_vec());
    let cases = [
        (kek(None, auth()), CryptError::MissingKey),
        (
            kek(Some(vec![1; 31]), auth()),
            CryptError::KeyLength { len: 31 },
        ),
        (kek(Some(vec![1; 32]), None), CryptError::MissingAuthData),
    ];
    for (kek, expected) in cases {
        assert_eq!(cipher.encrypted_key(&kek), Err(expected));
        assert_eq!(kek.encrypt_key_data(&vec![5; 64]), Err(expected));
        match wrap_spill_key(&kek, &cipher) {
            Err(err) => assert_eq!(err, expected),
            Ok(_) => panic!("wrapped under an unusable cipher"),
        }
    }
}

/// A padded frame: its length, the frame, zeros up to a whole sector.
#[test]
fn zstd_frame_is_padded_and_opens_to_the_data() {
    let data = vec![0xABu8; 5000];
    let packed = zstd().compress(&data).expect("a frame");
    assert_eq!(packed.len(), SECTOR_SIZE);
    let frame_len = u32::from_le_bytes([packed[0], packed[1], packed[2], packed[3]]) as usize;
    assert!(frame_len > 0 && frame_len < SECTOR_SIZE - 4);
    assert!(packed[4 + frame_len..].iter().all(|b| *b == 0));
    assert_eq!(
        ArchiveCompressionAlgorithm::Off.compress(&data),
        Some(data.clone())
    );
    assert_eq!(zstd().decompress(&packed), Some(data));
}

#[test]
fn spill_key_wrap_roundtrip() {
    let kek = spill_kek(&[0x5Au8; 32]);
    assert_eq!(kek.method, CipherMethod::Aes256Gcm);
    assert_eq!(kek.auth_data.as_deref(), Some(&b"ubiblk_spill"[..]));

    let cipher = XtsBlockCipher::random().unwrap();
    let wrapped = wrap_spill_key(&kek, &cipher).unwrap();
    assert_ne!(wrapped.len(), 64, "wrapped key carries nonce and tag");
    let unwrapped = unwrap_spill_key(&kek, &wrapped).unwrap();
    assert_eq!(unwrapped, cipher);

    // Two wraps differ (random nonce) but unwrap to the same key.
    let again = wrap_spill_key(&kek, &cipher).unwrap();
    assert_ne!(again, wrapped);
    assert_eq!(unwrap_spill_key(&kek, &again).unwrap(), cipher);
}

#[test]
fn spill_key_unwrap_rejects_wrong_kek() {
    let cipher = XtsBlockCipher::random().unwrap();
    let wrapped = wrap_spill_key(&spill_kek(&[0x5Au8; 32]), &cipher).unwrap();

    assert!(unwrap_spill_key(&spill_kek(&[0x5Bu8; 32]), &wrapped).is_err());
    // The archive KEK uses different auth data, so it cannot unwrap a
    // spill key even with the same bytes.
    let archive_kek = KeyEncryptionCipher {
        method: CipherMethod::Aes256Gcm,
        key: Some(vec![0x5Au8; 32]),
        auth_data: Some(b"ubiblk_archive".to_vec()),
    };
    assert!(unwrap_spill_key(&archive_kek, &wrapped).is_err());
    assert!(
        unwrap_spill_key(&spill_kek(&[0x5Au8; 32]), &wrapped[..wrapped.len() - 1]).is_err()
    );
}

#[test]
fn sealing_frames_what_compression_gave() {
    let plain = SpillCodec::new(zstd(), None, STRIPE_SECTORS);
    let failed = plain.seal_object(7, STRIPE_SIZE as u32, None);
    assert_eq!(failed, Err(SpillError::CompressionFailed));

    let packed = vec![0xA5u8; SECTOR_SIZE];
    let object = plain
        .seal_object(7, STRIPE_SIZE as u32, Some(packed.clone()))
        .unwrap();
    let header = SpillObjectHeader::decode(&object).unwrap();
    assert_eq!(header.flags, spill_flags::ZSTD);
    assert_eq!(header.stripe_index, 7);
    assert_eq!(header.uncompressed_len, STRIPE_SIZE as u32);
    assert_eq!(header.payload_len, SECTOR_SIZE as u32);
    assert_eq!(object[SPILL_HEADER_LEN..], packed[..]);

    let keyed = SpillCodec::new(zstd(), Some(cipher()), STRIPE_SECTORS);
    let object = keyed
        .seal_object(7, STRIPE_SIZE as u32, Some(packed.clone()))
        .unwrap();
    let header = SpillObjectHeader::decode(&object).unwrap();
    assert_eq!(header.flags, spill_flags::ZSTD | spill_flags::XTS);
    let mut payload = object[SPILL_HEADER_LEN..].to_vec();
    assert_ne!(payload, packed);
    cipher().decrypt(&mut payload, 7 * STRIPE_SECTORS);
    assert_eq!(payload, packed);
}
