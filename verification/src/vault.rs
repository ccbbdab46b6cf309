//! The vault: its configuration, the sealing of payloads and the file format.

use crate::hexcode;
use crate::hexcode::HexError;
use crate::sealing;
use crate::sealing::KEY_LEN;
use crate::sealing::MAX_PLAINTEXT;
use crate::sealing::NONCE_LEN;
use crate::text;
use vstd::prelude::*;
use vstd::utf8;

verus! {

/// The compression level of stored payloads.
pub const ZSTD_LEVEL: i32 = 3;

/// Where the RAM shield is mounted unless configured otherwise.
pub const DEFAULT_RAM_SHIELD: &'static str = "/mnt/ram_shield";

/// Where the primary USB vault is mounted unless configured otherwise.
pub const DEFAULT_USB_PRIMARY: &'static str = "/mnt/usb_primary";

/// Where the mirror USB vault is mounted unless configured otherwise.
pub const DEFAULT_USB_MIRROR: &'static str = "/mnt/usb_mirror";

/// Vault configuration.
#[derive(Clone, Debug)]
pub struct VaultConfig {
    /// AES-256-GCM key (32 bytes).
    pub aes_key: Vec<u8>,
    /// Path of the RAM shield tmpfs mount.
    pub ram_shield: String,
    /// Path of the primary USB vault.
    pub usb_primary: String,
    /// Path of the mirror USB vault.
    pub usb_mirror: String,
}

/// Why the environment gives no vault configuration.
#[derive(Clone, Copy, Debug, PartialEq, Eq, Structural)]
pub enum VaultConfigError {
    /// No key is set.
    KeyMissing,
    /// The key is not hexadecimal.
    KeyNotHex(HexError),
    /// The key has the wrong number of bytes.
    KeyLength(usize),
}

/// Why a payload could not be sealed.
#[derive(Clone, Copy, Debug, PartialEq, Eq, Structural)]
pub enum VaultError {
    /// The AES key does not have 32 bytes.
    InvalidKeyLength,
    /// The compressor failed.
    Compression,
    /// The compressed payload is too long to encrypt.
    Encryption,
}

impl VaultConfig {
    /// Makes the configuration of the values that the environment variables have: the key in
    /// hexadecimal, and the three paths, which have defaults.
    pub fn from_env(
        key_hex: Option<String>,
        ram_shield: Option<String>,
        usb_primary: Option<String>,
        usb_mirror: Option<String>,
    ) -> (r: Result<VaultConfig, VaultConfigError>)
        ensures
            match r {
                Ok(config) => {
                    &&& key_hex is Some
                    &&& hexcode::hex_reads_as(utf8::encode_utf8(key_hex->0@), Ok(config.aes_key@))
                    &&& config.aes_key@.len() == KEY_LEN
                    &&& config.ram_shield@ == text::set_or(text::opt_view(ram_shield), DEFAULT_RAM_SHIELD@)
                    &&& config.usb_primary@ == text::set_or(text::opt_view(usb_primary), DEFAULT_USB_PRIMARY@)
                    &&& config.usb_mirror@ == text::set_or(text::opt_view(usb_mirror), DEFAULT_USB_MIRROR@)
                },
                Err(VaultConfigError::KeyMissing) => key_hex is None,
                Err(VaultConfigError::KeyNotHex(e)) => {
                    &&& key_hex is Some
                    &&& hexcode::hex_reads_as(utf8::encode_utf8(key_hex->0@), Err(e))
                },
                Err(VaultConfigError::KeyLength(n)) => {
                    let digits = utf8::encode_utf8(key_hex->0@);
                    &&& key_hex is Some
                    &&& hexcode::hex_reads_as(digits, Ok(hexcode::hex_bytes(digits)))
                    &&& n == hexcode::hex_bytes(digits).len()
                    &&& n != KEY_LEN
                },
            },
    {
        let key_text = match key_hex {
            Some(key_text) => key_text,
            None => return Err(VaultConfigError::KeyMissing),
        };
        let aes_key = match hexcode::hex_decode(key_text.as_str()) {
            Ok(bytes) => bytes,
            Err(e) => return Err(VaultConfigError::KeyNotHex(e)),
        };
        if aes_key.len() != KEY_LEN {
            return Err(VaultConfigError::KeyLength(aes_key.len()));
        }
        Ok(
            VaultConfig {
                aes_key,
                ram_shield: text::value_or(ram_shield, DEFAULT_RAM_SHIELD),
                usb_primary: text::value_or(usb_primary, DEFAULT_USB_PRIMARY),
                usb_mirror: text::value_or(usb_mirror, DEFAULT_USB_MIRROR),
            },
        )
    }
}

/// A compressed, encrypted and hashed payload.
#[derive(Clone, Debug)]
pub struct ProcessedPayload {
    /// Zstd compressed, then AES-256-GCM encrypted data.
    pub ciphertext: Vec<u8>,
    /// 12-byte nonce used for encryption.
    pub nonce: Vec<u8>,
    /// SHA-256 hex digest of the plaintext before processing (provenance hash).
    pub sha256_hex: String,
}

/// The provenance hash of a payload: its SHA-256 digest in lower-case hexadecimal.
pub open spec fn provenance(raw: Seq<u8>) -> Seq<char> {
    hexcode::hex_text(sealing::sha256(raw))
}

/// Hashes bytes with SHA-256 and writes the digest in lower-case hexadecimal.
pub fn sha256_hex(data: &[u8]) -> (text: String)
    ensures
        text@ == provenance(data@),
        text@.len() == 64,
{
    let digest = sealing::sha256_digest(data);
    hexcode::hex_encode(digest.as_slice())
}

/// The vault: a configuration whose key has been tried.
pub struct Vault {
    config: VaultConfig,
}

impl Vault {
    #[verifier::type_invariant]
    spec fn key_fits(self) -> bool {
        self.config.aes_key@.len() == KEY_LEN
    }

    /// The configuration that the vault was made with.
    pub closed spec fn config_spec(self) -> VaultConfig {
        self.config
    }

    /// What sealing a payload may give. A payload that is sealed carries the hash of the raw
    /// bytes and a nonce that was drawn at random, and under the vault's key and that nonce
    /// encrypts the compressed bytes. Opened and decompressed it gives the raw bytes back.
    /// Sealing fails where the compressor does, and where the compressed bytes are too long to
    /// encrypt.
    pub open spec fn seals_as(self, raw: Seq<u8>, r: Result<ProcessedPayload, VaultError>) -> bool {
        let frame = sealing::zstd_frame(raw, ZSTD_LEVEL);
        match r {
            Ok(payload) => {
                &&& frame.len() <= MAX_PLAINTEXT
                &&& payload.sha256_hex@ == provenance(raw)
                &&& payload.sha256_hex@.len() == 64
                &&& payload.nonce@.len() == NONCE_LEN
                &&& sealing::is_drawn(payload.nonce@)
                &&& payload.ciphertext@ == sealing::aes256_gcm(
                    self.config_spec().aes_key@,
                    payload.nonce@,
                    frame,
                )
                &&& payload.ciphertext@.len() == frame.len() + sealing::TAG_LEN
                &&& sealing::unzstd(
                    sealing::aes256_gcm_open(
                        self.config_spec().aes_key@,
                        payload.nonce@,
                        payload.ciphertext@,
                    ),
                ) == raw
            },
            Err(VaultError::Encryption) => frame.len() > MAX_PLAINTEXT,
            Err(VaultError::Compression) => sealing::zstd_may_fail(raw, ZSTD_LEVEL),
            Err(VaultError::InvalidKeyLength) => false,
        }
    }

    /// Makes a vault of a configuration. A key of any length but 32 bytes is refused.
    pub fn new(config: VaultConfig) -> (r: Result<Vault, VaultError>)
        ensures
            match r {
                Ok(vault) => config.aes_key@.len() == KEY_LEN && vault.config_spec() == config,
                Err(e) => config.aes_key@.len() != KEY_LEN && e == VaultError::InvalidKeyLength,
            },
    {
        if sealing::key_fits(config.aes_key.as_slice()) {
            Ok(Vault { config })
        } else {
            Err(VaultError::InvalidKeyLength)
        }
    }

    /// The configuration that the vault was made with.
    pub fn config(&self) -> (config: &VaultConfig)
        ensures
            *config == self.config_spec(),
            config.aes_key@.len() == KEY_LEN,
    {
        proof {
            use_type_invariant(self);
        }
        &self.config
    }

    /// Compresses and encrypts a payload, and hashes it as it was before.
    ///
    /// The nonce is drawn at random.
    pub fn process(&self, raw_data: &[u8]) -> (r: Result<ProcessedPayload, VaultError>)
        ensures
            self.seals_as(raw_data@, r),
            r matches Ok(payload) ==> sealing::unzstd(
                sealing::aes256_gcm_open(
                    self.config_spec().aes_key@,
                    payload.nonce@,
                    payload.ciphertext@,
                ),
            ) == raw_data@,
            r matches Ok(payload) ==> payload.sha256_hex@ == hexcode::hex_text(
                sealing::sha256(raw_data@),
            ),
    {
        let hash = sha256_hex(raw_data);
        match sealing::compress(raw_data, ZSTD_LEVEL) {
            Some(compressed) => {
                let nonce = sealing::draw_nonce();
                self.encrypt_compressed(hash, compressed.as_slice(), nonce)
            },
            None => Err(VaultError::Compression),
        }
    }

    /// Encrypts a compressed payload under a nonce, and joins it with the hash of the raw payload.
    pub fn encrypt_compressed(
        &self,
        sha256_hex: String,
        compressed: &[u8],
        nonce: Vec<u8>,
    ) -> (r: Result<ProcessedPayload, VaultError>)
        requires
            nonce@.len() == NONCE_LEN,
        ensures
            r is Ok == (compressed@.len() <= MAX_PLAINTEXT),
            match r {
                Ok(payload) => {
                    &&& payload.sha256_hex == sha256_hex
                    &&& payload.nonce == nonce
                    &&& payload.ciphertext@ == sealing::aes256_gcm(
                        self.config_spec().aes_key@,
                        nonce@,
                        compressed@,
                    )
                    &&& sealing::aes256_gcm_open(
                        self.config_spec().aes_key@,
                        nonce@,
                        payload.ciphertext@,
                    ) == compressed@
                    &&& payload.ciphertext@.len() == compressed@.len() + sealing::TAG_LEN
                },
                Err(e) => e == VaultError::Encryption,
            },
    {
        proof {
            use_type_invariant(self);
        }
        let key = self.config.aes_key.as_slice();
        match sealing::aes256_gcm_encrypt(key, nonce.as_slice(), compressed) {
            Some(ciphertext) => Ok(ProcessedPayload { ciphertext, nonce, sha256_hex }),
            None => Err(VaultError::Encryption),
        }
    }
}

/// A number below 2^32 as four bytes, the lowest first. Higher bits are dropped.
pub open spec fn le_bytes(n: int) -> Seq<u8> {
    seq![
        (n % 256) as u8,
        (n / 256 % 256) as u8,
        (n / 65_536 % 256) as u8,
        (n / 16_777_216 % 256) as u8,
    ]
}

/// The number that four bytes denote, the lowest first.
pub open spec fn le_value(bytes: Seq<u8>) -> int {
    bytes[0] + bytes[1] * 256 + bytes[2] * 65_536 + bytes[3] * 16_777_216
}

/// The contents of a vault file: the length of the hash, the hash, the nonce, the ciphertext.
pub open spec fn file_bytes(hash: Seq<u8>, nonce: Seq<u8>, ciphertext: Seq<u8>) -> Seq<u8> {
    le_bytes(hash.len() as int) + hash + nonce + ciphertext
}

/// The contents of the vault file that holds a payload.
pub open spec fn sealed_bytes(payload: ProcessedPayload) -> Seq<u8> {
    file_bytes(utf8::encode_utf8(payload.sha256_hex@), payload.nonce@, payload.ciphertext@)
}

/// Appends bytes to a buffer.
fn append_bytes(buffer: &mut Vec<u8>, bytes: &[u8])
    ensures
        final(buffer)@ == old(buffer)@ + bytes@,
{
    buffer.extend_from_slice(bytes);
    assert(buffer@ =~= old(buffer)@ + bytes@);
}

/// Lays out a payload as the contents of a vault file:
/// `[hash length, 4 bytes][hash][12-byte nonce][ciphertext]`.
pub fn write_pending(payload: &ProcessedPayload) -> (buffer: Vec<u8>)
    ensures
        buffer@ == sealed_bytes(*payload),
{
    let hash = payload.sha256_hex.as_str().as_bytes();
    let n: usize = hash.len();
    let mut buffer: Vec<u8> = Vec::new();
    buffer.push((n % 256) as u8);
    buffer.push((n / 256 % 256) as u8);
    buffer.push((n / 65_536 % 256) as u8);
    buffer.push((n / 16_777_216 % 256) as u8);
    assert(buffer@ =~= le_bytes(n as int));
    append_bytes(&mut buffer, hash);
    append_bytes(&mut buffer, payload.nonce.as_slice());
    append_bytes(&mut buffer, payload.ciphertext.as_slice());
    buffer
}

/// A vault file gives back what was laid out in it: its first four bytes are the length of the
/// hash, and the hash, the nonce and the ciphertext follow one another.
pub proof fn law_vault_file_gives_back_its_parts(
    hash: Seq<u8>,
    nonce: Seq<u8>,
    ciphertext: Seq<u8>,
)
    requires
        hash.len() < 0x1_0000_0000,
        nonce.len() == NONCE_LEN,
    ensures
        ({
            let file = file_bytes(hash, nonce, ciphertext);
            let n = le_value(file.take(4));
            &&& n == hash.len()
            &&& file.subrange(4, 4 + n) == hash
            &&& file.subrange(4 + n, 4 + n + NONCE_LEN) == nonce
            &&& file.skip(4 + n + NONCE_LEN) == ciphertext
        }),
{
    let file = file_bytes(hash, nonce, ciphertext);
    let n = hash.len() as int;
    assert(file.take(4) =~= le_bytes(n));
    assert(le_value(le_bytes(n)) == n);
    assert(file.subrange(4, 4 + n) =~= hash);
    assert(file.subrange(4 + n, 4 + n + NONCE_LEN) =~= nonce);
    assert(file.skip(4 + n + NONCE_LEN) =~= ciphertext);
}

/// Sealing loses nothing: opened under the vault's key and its nonce and decompressed, a sealed
/// payload gives back the raw payload, all of it, whatever its length. Its provenance hash is
/// that of the raw payload, and its ciphertext is longer than the compressed payload by the tag
/// alone.
pub proof fn law_sealing_loses_nothing(vault: Vault, raw: Seq<u8>, payload: ProcessedPayload)
    requires
        vault.seals_as(raw, Ok(payload)),
    ensures
        sealing::unzstd(
            sealing::aes256_gcm_open(
                vault.config_spec().aes_key@,
                payload.nonce@,
                payload.ciphertext@,
            ),
        ) == raw,
        payload.ciphertext@ == sealing::aes256_gcm(
            vault.config_spec().aes_key@,
            payload.nonce@,
            sealing::zstd_frame(raw, 3),
        ),
        payload.sha256_hex@ == hexcode::hex_text(sealing::sha256(raw)),
        payload.ciphertext@.len() == sealing::zstd_frame(raw, 3).len() + 16,
        payload.nonce@.len() == 12,
        sealing::is_drawn(payload.nonce@),
{
}

/// Whatever a call of `process` gives for a payload: if it is sealed, it opens to that payload
/// and carries its hash. It fails only where the compressor may fail on that payload, or where
/// the compressed payload is too long to encrypt, and the latter is never sealed.
pub proof fn law_processing_seals_the_whole_payload(
    vault: &Vault,
    raw: &[u8],
    r: Result<ProcessedPayload, VaultError>,
)
    requires
        call_ensures(Vault::process, (vault, raw), r),
    ensures
        r matches Ok(payload) ==> sealing::unzstd(
            sealing::aes256_gcm_open(
                vault.config_spec().aes_key@,
                payload.nonce@,
                payload.ciphertext@,
            ),
        ) == raw@,
        r matches Ok(payload) ==> payload.sha256_hex@ == hexcode::hex_text(sealing::sha256(raw@)),
        r matches Ok(payload) ==> sealing::is_drawn(payload.nonce@),
        r is Ok ==> sealing::zstd_frame(raw@, 3).len() <= MAX_PLAINTEXT,
        r == Err::<ProcessedPayload, VaultError>(VaultError::Encryption) ==> sealing::zstd_frame(
            raw@,
            3,
        ).len() > MAX_PLAINTEXT,
        r == Err::<ProcessedPayload, VaultError>(VaultError::Compression)
            ==> sealing::zstd_may_fail(raw@, 3),
        r != Err::<ProcessedPayload, VaultError>(VaultError::InvalidKeyLength),
{
}

/// Two payloads that seal to the same ciphertext under the same nonce are the same payload.
pub proof fn law_different_payloads_seal_differently(
    vault: Vault,
    raw: Seq<u8>,
    payload: ProcessedPayload,
    other_raw: Seq<u8>,
    other: ProcessedPayload,
)
    requires
        vault.seals_as(raw, Ok(payload)),
        vault.seals_as(other_raw, Ok(other)),
        payload.nonce@ == other.nonce@,
        payload.ciphertext@ == other.ciphertext@,
    ensures
        raw == other_raw,
{
}

/// The file of a sealed payload, read by its layout, opens to the raw payload: its first four
/// bytes tell the length of the hash, which is 64; then come the hash of the raw payload, the
/// nonce, and the ciphertext, which opens to the raw payload.
pub proof fn law_sealed_file_opens_to_the_payload(
    vault: Vault,
    raw: Seq<u8>,
    payload: ProcessedPayload,
    file: Vec<u8>,
)
    requires
        vault.seals_as(raw, Ok(payload)),
        call_ensures(write_pending, (&payload,), file),
    ensures
        file@.len() >= 96,
        file@[0] + file@[1] * 256 + file@[2] * 65_536 + file@[3] * 16_777_216 == 64,
        file@.subrange(4, 68) == utf8::encode_utf8(hexcode::hex_text(sealing::sha256(raw))),
        file@.subrange(68, 80) == payload.nonce@,
        sealing::unzstd(
            sealing::aes256_gcm_open(
                vault.config_spec().aes_key@,
                file@.subrange(68, 80),
                file@.skip(80),
            ),
        ) == raw,
{
    lemma_sealed_file_opens(vault, raw, payload);
}

/// The layout of the file of a sealed payload, and what it opens to.
pub proof fn lemma_sealed_file_opens(vault: Vault, raw: Seq<u8>, payload: ProcessedPayload)
    requires
        vault.seals_as(raw, Ok(payload)),
    ensures
        ({
            let file = sealed_bytes(payload);
            &&& file.len() >= 96
            &&& file[0] + file[1] * 256 + file[2] * 65_536 + file[3] * 16_777_216 == 64
            &&& file.subrange(4, 68) == utf8::encode_utf8(hexcode::hex_text(sealing::sha256(raw)))
            &&& file.subrange(68, 80) == payload.nonce@
            &&& file.skip(80) == payload.ciphertext@
        }),
{
    let text = hexcode::hex_text(sealing::sha256(raw));
    assert(utf8::is_ascii_chars(text));
    utf8::is_ascii_chars_encode_utf8(text);
    let hash = utf8::encode_utf8(text);
    law_vault_file_gives_back_its_parts(hash, payload.nonce@, payload.ciphertext@);
    let file = sealed_bytes(payload);
    assert(file.take(4)[0] == file[0] && file.take(4)[1] == file[1]);
    assert(file.take(4)[2] == file[2] && file.take(4)[3] == file[3]);
}

/// A key of 32 bytes that was written in hexadecimal is taken from the environment as those
/// bytes, and no key of another length is; a path that is set is taken as it is, and the others
/// have their defaults.
pub proof fn law_vault_configuration_takes_what_is_set(
    key_hex: Option<String>,
    ram_shield: Option<String>,
    usb_primary: Option<String>,
    usb_mirror: Option<String>,
    r: Result<VaultConfig, VaultConfigError>,
    key: Seq<u8>,
)
    requires
        call_ensures(
            VaultConfig::from_env,
            (key_hex, ram_shield, usb_primary, usb_mirror),
            r,
        ),
    ensures
        key_hex is None ==> r == Err::<VaultConfig, VaultConfigError>(VaultConfigError::KeyMissing),
        key_hex matches Some(text) && text@ == hexcode::hex_text(key) && key.len() == 32
            ==> r is Ok && r->Ok_0.aes_key@ == key,
        key_hex matches Some(text) && text@ == hexcode::hex_text(key) && key.len() != 32
            ==> r is Err && r->Err_0 is KeyLength && r->Err_0->KeyLength_0 == key.len(),
        r matches Ok(config) ==> config.aes_key@.len() == 32,
        r matches Ok(config) ==> {
            &&& ram_shield matches Some(path) ==> config.ram_shield@ == path@
            &&& ram_shield is None ==> config.ram_shield@ == "/mnt/ram_shield"@
            &&& usb_primary matches Some(path) ==> config.usb_primary@ == path@
            &&& usb_primary is None ==> config.usb_primary@ == "/mnt/usb_primary"@
            &&& usb_mirror matches Some(path) ==> config.usb_mirror@ == path@
            &&& usb_mirror is None ==> config.usb_mirror@ == "/mnt/usb_mirror"@
        },
{
    if key_hex is Some && key_hex->0@ == hexcode::hex_text(key) {
        let digits = utf8::encode_utf8(key_hex->0@);
        match r {
            Ok(config) => {
                hexcode::law_hex_round_trip(key, Ok(config.aes_key@));
            },
            Err(VaultConfigError::KeyNotHex(e)) => {
                hexcode::law_hex_round_trip(key, Err(e));
            },
            Err(VaultConfigError::KeyLength(n)) => {
                hexcode::law_hex_round_trip(key, Ok(hexcode::hex_bytes(digits)));
            },
            Err(_) => {},
        }
    }
}

/// A vault is made exactly of a configuration whose key has 32 bytes, and keeps it.
pub proof fn law_vaults_have_fitting_keys(config: VaultConfig, r: Result<Vault, VaultError>)
    requires
        call_ensures(Vault::new, (config,), r),
    ensures
        r is Ok <==> config.aes_key@.len() == 32,
        r matches Ok(vault) ==> vault.config_spec() == config,
        r matches Err(e) ==> e == VaultError::InvalidKeyLength,
{
}

} // verus!
