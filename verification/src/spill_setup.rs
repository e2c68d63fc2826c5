//! Turning a spill configuration into something the coordinator can run: the
//! preconditions, the evictor's limits, the codec with its unwrapped key, and
//! the key object written when a device is initialised.

use vstd::prelude::*;
use vstd::string::StringExecFns;

use crate::config::{ArchiveStorageConfig, DeviceSection, ResolvedSecret, SpillSection};
use crate::crypt::{copy_bytes, gcm_opened, CryptError, KEY_LEN, XtsBlockCipher};
use crate::spill::codec::{
    lemma_spill_kek_opens, spill_auth_data, spill_kek, spill_key_object_name, spill_key_opened,
    unwrap_spill_key, wrap_spill_key, SpillCodec,
};
use crate::spill::evictor_model::{EvictorConfig, OnFull};
use crate::text::{decimal, push_decimal};

verus! {

/// Stripes the CLOCK hand examines per evictor tick.
pub const SWEEP_BATCH: usize = 4096;

/// Why a device cannot spill as configured.
#[derive(Debug, Clone, Copy, PartialEq, Eq, Structural)]
pub enum SetupError {
    /// The data path has nothing to punch.
    NotRegularFile,
    /// The metadata file's size does not fit a file offset.
    MetadataSize { size: usize },
    /// A key encryption key is set but there is no store for the wrapped key.
    KekWithoutStore,
    /// The key encryption key's secret is not configured.
    UnknownSecret,
    /// The store has no key object.
    KeyObjectMissing,
    /// The key object was not wrapped under the key encryption key.
    KeyObjectSealed,
    /// The key could not be wrapped.
    Crypt { error: CryptError },
}

impl SetupError {
    /// The message for this error on `device`.
    pub open spec fn message(self, device: DeviceSection) -> Seq<char> {
        match self {
            SetupError::NotRegularFile => "spill needs data_path to be a regular file, but "@
                + device.data_path@ + " is not"@,
            SetupError::MetadataSize { size } => "metadata size "@ + decimal(size as nat)
                + " does not fit an off_t"@,
            SetupError::KekWithoutStore =>
                "spill.kek needs spill.store: the wrapped spill key is stored there"@,
            SetupError::UnknownSecret => "spill.kek names a secret that is not configured"@,
            SetupError::KeyObjectMissing => "spill key object "@ + device.device_id@
                + "/spill-key"@
                + " is missing or unreadable; init-metadata writes it when spill.kek is set"@,
            SetupError::KeyObjectSealed => "spill key object "@ + device.device_id@
                + "/spill-key"@ + " does not decrypt under spill.kek"@,
            SetupError::Crypt { error } => "the spill key cannot be wrapped"@,
        }
    }

    /// The message as a string.
    pub fn describe(&self, device: &DeviceSection) -> (r: String)
        ensures
            r@ == self.message(*device),
    {
        let mut out = String::new();
        match *self {
            SetupError::NotRegularFile => {
                out.append("spill needs data_path to be a regular file, but ");
                out.append(device.data_path.as_str());
                out.append(" is not");
            },
            SetupError::MetadataSize { size } => {
                out.append("metadata size ");
                push_decimal(&mut out, size as u64);
                out.append(" does not fit an off_t");
            },
            SetupError::KekWithoutStore => {
                out.append("spill.kek needs spill.store: the wrapped spill key is stored there");
            },
            SetupError::UnknownSecret => {
                out.append("spill.kek names a secret that is not configured");
            },
            SetupError::KeyObjectMissing => {
                out.append("spill key object ");
                out.append(device.device_id.as_str());
                out.append("/spill-key");
                out.append(
                    " is missing or unreadable; init-metadata writes it when spill.kek is set",
                );
            },
            SetupError::KeyObjectSealed => {
                out.append("spill key object ");
                out.append(device.device_id.as_str());
                out.append("/spill-key");
                out.append(" does not decrypt under spill.kek");
            },
            SetupError::Crypt { error } => {
                out.append("the spill key cannot be wrapped");
            },
        }
        assert(out@ =~= self.message(*device));
        out
    }
}

/// The data path is a regular file. A block device has nothing to punch and no
/// lack of space to avoid.
pub fn check_spill_preconditions(is_regular_file: bool) -> (r: Result<(), SetupError>)
    ensures
        r == (if is_regular_file {
            Ok::<(), SetupError>(())
        } else {
            Err(SetupError::NotRegularFile)
        }),
{
    if is_regular_file {
        Ok(())
    } else {
        Err(SetupError::NotRegularFile)
    }
}

/// The metadata file's size as a file offset.
pub fn preallocation_len(size: usize) -> (r: Result<i64, SetupError>)
    ensures
        r == (if size <= i64::MAX {
            Ok::<i64, SetupError>(size as i64)
        } else {
            Err(SetupError::MetadataSize { size })
        }),
{
    if size as u64 <= i64::MAX as u64 {
        Ok(size as i64)
    } else {
        Err(SetupError::MetadataSize { size })
    }
}

/// The bytes of the secret called `name`.
pub open spec fn resolved(secrets: Seq<ResolvedSecret>, name: Seq<char>) -> Option<Seq<u8>>
    decreases secrets.len(),
{
    if secrets.len() == 0 {
        None
    } else if secrets[0].name@ == name {
        Some(secrets[0].bytes@)
    } else {
        resolved(secrets.drop_first(), name)
    }
}

/// The bytes of the secret called `name`.
pub fn get_resolved_secret(name: &String, secrets: &Vec<ResolvedSecret>) -> (r: Option<Vec<u8>>)
    ensures
        match resolved(secrets@, name@) {
            Some(bytes) => r is Some && r->Some_0@ == bytes,
            None => r is None,
        },
{
    let mut i: usize = 0;
    assert(secrets@.subrange(0, secrets@.len() as int) =~= secrets@);
    while i < secrets.len()
        invariant
            i <= secrets@.len(),
            resolved(secrets@, name@) == resolved(
                secrets@.subrange(i as int, secrets@.len() as int),
                name@,
            ),
        decreases secrets@.len() - i,
    {
        if secrets[i].name == *name {
            return Some(copy_bytes(secrets[i].bytes.as_slice()));
        }
        assert(secrets@.subrange(i as int, secrets@.len() as int).drop_first()
            =~= secrets@.subrange(i + 1, secrets@.len() as int));
        i = i + 1;
    }
    None
}

/// The key encryption key, where one is set and there is a store for what is
/// wrapped under it.
pub open spec fn kek_of(section: SpillSection, secrets: Seq<ResolvedSecret>) -> Result<
    Option<Seq<u8>>,
    SetupError,
> {
    match section.kek {
        None => Ok(None),
        Some(name) => if section.store is None {
            Err(SetupError::KekWithoutStore)
        } else {
            match resolved(secrets, name@) {
                None => Err(SetupError::UnknownSecret),
                Some(kek) => Ok(Some(kek)),
            }
        },
    }
}

/// The key encryption key, where one is set.
fn kek_bytes(section: &SpillSection, secrets: &Vec<ResolvedSecret>) -> (r: Result<
    Option<Vec<u8>>,
    SetupError,
>)
    ensures
        match kek_of(*section, secrets@) {
            Ok(Some(kek)) => r is Ok && r->Ok_0 is Some && r->Ok_0->Some_0@ == kek,
            Ok(None) => r is Ok && r->Ok_0 is None,
            Err(e) => r is Err && r->Err_0 == e,
        },
{
    match &section.kek {
        None => Ok(None),
        Some(name) => if section.store.is_none() {
            Err(SetupError::KekWithoutStore)
        } else {
            match get_resolved_secret(name, secrets) {
                None => Err(SetupError::UnknownSecret),
                Some(kek) => Ok(Some(kek)),
            }
        },
    }
}

/// The name of the key object that the codec needs, where it needs one.
pub fn spill_key_wanted(
    section: &SpillSection,
    device_id: &str,
    secrets: &Vec<ResolvedSecret>,
) -> (r: Result<Option<String>, SetupError>)
    ensures
        match kek_of(*section, secrets@) {
            Ok(Some(kek)) => r is Ok && r->Ok_0 is Some && r->Ok_0->Some_0@ == device_id@
                + "/spill-key"@,
            Ok(None) => r is Ok && r->Ok_0 is None,
            Err(e) => r is Err && r->Err_0 == e,
        },
{
    match kek_bytes(section, secrets) {
        Err(e) => Err(e),
        Ok(None) => Ok(None),
        Ok(Some(_)) => Ok(Some(spill_key_object_name(device_id))),
    }
}

/// The two spill keys, where the configuration calls for them: what the key
/// object holds under the key encryption key.
pub open spec fn codec_keys(
    section: SpillSection,
    secrets: Seq<ResolvedSecret>,
    key_object: Option<Seq<u8>>,
) -> Result<Option<Seq<u8>>, SetupError> {
    match kek_of(section, secrets) {
        Err(e) => Err(e),
        Ok(None) => Ok(None),
        Ok(Some(kek)) => match key_object {
            None => Err(SetupError::KeyObjectMissing),
            Some(wrapped) => match spill_key_opened(kek, wrapped) {
                Err(_) => Err(SetupError::KeyObjectSealed),
                Ok(keys) => if keys.len() == 2 * KEY_LEN {
                    Ok(Some(keys))
                } else {
                    Err(SetupError::KeyObjectSealed)
                },
            },
        },
    }
}

/// The bytes of an object that was fetched.
pub open spec fn fetched_bytes(object: Option<Vec<u8>>) -> Option<Seq<u8>> {
    match object {
        Some(bytes) => Some(bytes@),
        None => None,
    }
}

/// The codec encrypts with these keys, or not at all.
pub open spec fn codec_uses(codec: SpillCodec, keys: Option<Seq<u8>>) -> bool {
    match keys {
        Some(keys) => codec.cipher is Some && codec.cipher->Some_0.wf()
            && codec.cipher->Some_0.key1@ + codec.cipher->Some_0.key2@ == keys,
        None => codec.cipher is None,
    }
}

/// The codec for a device: compression from the section, the key from
/// `key_object`, which is what the store holds under the name that
/// `spill_key_wanted` gives. A missing or undecryptable key object is an error
/// rather than objects written in the clear.
pub fn build_spill_codec(
    section: &SpillSection,
    stripe_sector_count: u64,
    secrets: &Vec<ResolvedSecret>,
    key_object: &Option<Vec<u8>>,
) -> (r: Result<SpillCodec, SetupError>)
    ensures
        match codec_keys(*section, secrets@, fetched_bytes(*key_object)) {
            Ok(keys) => {
                &&& r is Ok
                &&& r->Ok_0.compression == section.compression
                &&& r->Ok_0.stripe_sector_count == stripe_sector_count
                &&& codec_uses(r->Ok_0, keys)
            },
            Err(e) => r is Err && r->Err_0 == e,
        },
{
    let cipher = match kek_bytes(section, secrets) {
        Err(e) => {
            return Err(e);
        },
        Ok(None) => None,
        Ok(Some(kek)) => match key_object {
            None => {
                return Err(SetupError::KeyObjectMissing);
            },
            Some(wrapped) => {
                let opener = spill_kek(kek.as_slice());
                proof {
                    lemma_spill_kek_opens(opener, kek@, wrapped@);
                }
                match unwrap_spill_key(&opener, wrapped.as_slice()) {
                    Err(_) => {
                        return Err(SetupError::KeyObjectSealed);
                    },
                    Ok(cipher) => Some(cipher),
                }
            },
        },
    };
    Ok(SpillCodec::new(section.compression, cipher, stripe_sector_count))
}

/// A key object to put into the store.
#[derive(Debug, Clone)]
pub struct KeyObject {
    /// Its name.
    pub name: String,
    /// Its bytes.
    pub bytes: Vec<u8>,
}

/// A fresh spill key, wrapped under the key encryption key, to be put under
/// `<device_id>/spill-key` when a device is initialised. Without a key
/// encryption key there is nothing to put. Forks start from truncated
/// metadata, so no object written under an old key is ever read again.
pub fn init_spill_key(
    section: &SpillSection,
    device_id: &str,
    secrets: &Vec<ResolvedSecret>,
) -> (r: Result<Option<KeyObject>, SetupError>)
    ensures
        match kek_of(*section, secrets@) {
            Err(e) => r is Err && r->Err_0 == e,
            Ok(None) => r is Ok && r->Ok_0 is None,
            Ok(Some(kek)) => match r {
                Ok(object) => {
                    &&& kek.len() == KEY_LEN
                    &&& object is Some
                    &&& object->Some_0.name@ == device_id@ + "/spill-key"@
                    &&& spill_key_opened(kek, object->Some_0.bytes@) is Ok
                    &&& spill_key_opened(kek, object->Some_0.bytes@)->Ok_0.len() == 2 * KEY_LEN
                },
                Err(e) => e == (SetupError::Crypt { error: CryptError::NoRandomness }) || (
                kek.len() != KEY_LEN && e == (SetupError::Crypt {
                    error: CryptError::KeyLength { len: kek.len() as usize },
                })),
            },
        },
{
    let kek = match kek_bytes(section, secrets) {
        Err(e) => {
            return Err(e);
        },
        Ok(None) => {
            return Ok(None);
        },
        Ok(Some(kek)) => kek,
    };
    let sealer = spill_kek(kek.as_slice());
    let cipher = match XtsBlockCipher::random() {
        Ok(cipher) => cipher,
        Err(error) => {
            return Err(SetupError::Crypt { error });
        },
    };
    match wrap_spill_key(&sealer, &cipher) {
        Ok(bytes) => {
            proof {
                lemma_spill_kek_opens(sealer, kek@, bytes@);
            }
            Ok(Some(KeyObject { name: spill_key_object_name(device_id), bytes }))
        },
        Err(error) => {
            proof {
                lemma_spill_kek_opens(sealer, kek@, Seq::empty());
            }
            Err(SetupError::Crypt { error })
        },
    }
}

/// A device opens with the key that its initialisation put into the store.
pub proof fn law_device_opens_with_its_initial_key(
    section: SpillSection,
    secrets: Seq<ResolvedSecret>,
    kek: Seq<u8>,
    object: Seq<u8>,
)
    requires
        kek_of(section, secrets) == Ok::<Option<Seq<u8>>, SetupError>(Some(kek)),
        spill_key_opened(kek, object) is Ok,
        spill_key_opened(kek, object)->Ok_0.len() == 2 * KEY_LEN,
    ensures
        codec_keys(section, secrets, Some(object)) == Ok::<Option<Seq<u8>>, SetupError>(
            Some(spill_key_opened(kek, object)->Ok_0),
        ),
{
}

/// With a key encryption key set, a device never comes up without encrypting.
pub proof fn law_kek_never_spills_in_the_clear(
    section: SpillSection,
    secrets: Seq<ResolvedSecret>,
    key_object: Option<Seq<u8>>,
)
    requires
        section.kek is Some,
    ensures
        codec_keys(section, secrets, key_object) matches Ok(keys) ==> keys is Some,
{
}

/// How many connections a store may open.
pub open spec fn connections_of(store: ArchiveStorageConfig) -> usize {
    match store {
        ArchiveStorageConfig::S3 { bucket, prefix, region, connections } => connections,
        ArchiveStorageConfig::Filesystem { path } => 1,
    }
}

/// How many connections a store may open.
pub fn store_connections(store: &ArchiveStorageConfig) -> (r: usize)
    ensures
        r == connections_of(*store),
{
    match store {
        ArchiveStorageConfig::S3 { bucket, prefix, region, connections } => *connections,
        ArchiveStorageConfig::Filesystem { path } => 1,
    }
}

/// Everything the coordinator needs to run an evictor.
#[derive(Debug, Clone)]
pub struct SpillRuntime {
    /// The evictor's limits and paths.
    pub cfg: EvictorConfig,
    /// Prefix of every object this device writes to the store.
    pub device_id: String,
    /// Connections that the owners of stores share; without a store only clean
    /// stripes are evicted.
    pub store_budget: Option<usize>,
    /// Turns stripe bytes into object bytes and back.
    pub codec: SpillCodec,
}

impl SpillRuntime {
    /// How many workers a store gets whose owner asks for `workers`: no more
    /// than the budget, and at least one.
    pub fn store_workers(&self, workers: usize) -> (r: Option<usize>)
        ensures
            r == match self.store_budget {
                None => None::<usize>,
                Some(budget) => Some(
                    if workers == 0 || budget == 0 {
                        1usize
                    } else if workers <= budget {
                        workers
                    } else {
                        budget
                    },
                ),
            },
    {
        match self.store_budget {
            None => None,
            Some(budget) => {
                let capped: usize = if workers < budget {
                    workers
                } else {
                    budget
                };
                if capped < 1 {
                    Some(1)
                } else {
                    Some(capped)
                }
            },
        }
    }
}

/// What the evictor is configured with.
pub open spec fn evictor_configured(
    cfg: EvictorConfig,
    device: DeviceSection,
    section: SpillSection,
    stripe_sector_count: u64,
    target_sector_count: u64,
    alignment: usize,
) -> bool {
    &&& cfg.data_path@ == device.data_path@
    &&& cfg.device_id@ == device.device_id@
    &&& cfg.stripe_sector_count == stripe_sector_count
    &&& cfg.target_sector_count == target_sector_count
    &&& cfg.max_local_bytes == section.max_local_bytes
    &&& cfg.low_water_bytes == section.low_water_bytes
    &&& cfg.hard_margin_bytes == section.hard_margin_bytes
    &&& cfg.min_free_bytes == section.min_free_bytes
    &&& cfg.clean_eviction == section.clean_eviction
    &&& cfg.on_full == section.on_full
    &&& cfg.max_concurrent_evictions == section.max_concurrent_evictions
    &&& cfg.sweep_batch == SWEEP_BATCH
    &&& cfg.alignment == alignment
}

/// The runtime from the section and the device's geometry. `key_object` is what
/// the store holds under the name that `spill_key_wanted` gives.
pub fn build_spill_runtime(
    device: &DeviceSection,
    section: &SpillSection,
    stripe_sector_count: u64,
    target_sector_count: u64,
    alignment: usize,
    secrets: &Vec<ResolvedSecret>,
    key_object: &Option<Vec<u8>>,
) -> (r: Result<SpillRuntime, SetupError>)
    ensures
        match codec_keys(*section, secrets@, fetched_bytes(*key_object)) {
            Ok(keys) => {
                &&& r is Ok
                &&& evictor_configured(
                    r->Ok_0.cfg,
                    *device,
                    *section,
                    stripe_sector_count,
                    target_sector_count,
                    alignment,
                )
                &&& r->Ok_0.device_id@ == device.device_id@
                &&& r->Ok_0.store_budget == match section.store {
                    Some(store) => Some(connections_of(store)),
                    None => None,
                }
                &&& r->Ok_0.codec.compression == section.compression
                &&& r->Ok_0.codec.stripe_sector_count == stripe_sector_count
                &&& codec_uses(r->Ok_0.codec, keys)
            },
            Err(e) => r is Err && r->Err_0 == e,
        },
{
    let cfg = EvictorConfig {
        data_path: device.data_path.clone(),
        device_id: device.device_id.clone(),
        stripe_sector_count,
        target_sector_count,
        max_local_bytes: section.max_local_bytes,
        low_water_bytes: section.low_water_bytes,
        hard_margin_bytes: section.hard_margin_bytes,
        min_free_bytes: section.min_free_bytes,
        clean_eviction: section.clean_eviction,
        on_full: section.on_full,
        max_concurrent_evictions: section.max_concurrent_evictions,
        sweep_batch: SWEEP_BATCH,
        alignment,
    };
    let store_budget = match &section.store {
        Some(store) => Some(store_connections(store)),
        None => None,
    };
    let codec = match build_spill_codec(section, stripe_sector_count, secrets, key_object) {
        Ok(codec) => codec,
        Err(e) => {
            return Err(e);
        },
    };
    Ok(SpillRuntime { cfg, device_id: device.device_id.clone(), store_budget, codec })
}

/// Where evicted stripes go, as text.
pub open spec fn store_text(store: Option<ArchiveStorageConfig>) -> Seq<char> {
    match store {
        Some(ArchiveStorageConfig::S3 { bucket, prefix, region, connections }) => match prefix {
            Some(prefix) => "s3 "@ + bucket@ + "/"@ + prefix@,
            None => "s3 "@ + bucket@,
        },
        Some(ArchiveStorageConfig::Filesystem { path }) => "fs "@ + path@,
        None => "none (clean-only)"@,
    }
}

/// The startup summary of a spill configuration.
pub open spec fn summary_text(section: SpillSection) -> Seq<char> {
    "ceiling "@ + decimal(section.max_local_bytes as nat) + ", low water "@ + decimal(
        section.low_water_bytes as nat,
    ) + ", hard margin "@ + decimal(section.hard_margin_bytes as nat) + ", min free "@ + decimal(
        section.min_free_bytes as nat,
    ) + ", store "@ + store_text(section.store) + ", clean_eviction "@ + (
    if section.clean_eviction {
        "on"@
    } else {
        "off"@
    }) + ", on_full "@ + (match section.on_full {
        OnFull::Stall => "stall"@,
        OnFull::Fail => "fail"@,
    }) + ", kek "@ + (if section.kek is Some {
        "set"@
    } else {
        "unset"@
    })
}

/// The startup summary of a spill configuration, one line an operator can hold
/// against what they meant to deploy.
pub fn spill_summary(section: &SpillSection) -> (r: String)
    ensures
        r@ == summary_text(*section),
{
    let mut out = String::from_str("ceiling ");
    push_decimal(&mut out, section.max_local_bytes);
    out.append(", low water ");
    push_decimal(&mut out, section.low_water_bytes);
    out.append(", hard margin ");
    push_decimal(&mut out, section.hard_margin_bytes);
    out.append(", min free ");
    push_decimal(&mut out, section.min_free_bytes);
    out.append(", store ");
    let ghost before = out@;
    match &section.store {
        Some(ArchiveStorageConfig::S3 { bucket, prefix, region, connections }) => {
            out.append("s3 ");
            out.append(bucket.as_str());
            match prefix {
                Some(prefix) => {
                    out.append("/");
                    out.append(prefix.as_str());
                },
                None => {},
            }
        },
        Some(ArchiveStorageConfig::Filesystem { path }) => {
            out.append("fs ");
            out.append(path.as_str());
        },
        None => {
            out.append("none (clean-only)");
        },
    }
    assert(out@ =~= before + store_text(section.store));
    out.append(", clean_eviction ");
    out.append(
        if section.clean_eviction {
            "on"
        } else {
            "off"
        },
    );
    out.append(", on_full ");
    out.append(
        match section.on_full {
            OnFull::Stall => "stall",
            OnFull::Fail => "fail",
        },
    );
    out.append(", kek ");
    out.append(
        if section.kek.is_some() {
            "set"
        } else {
            "unset"
        },
    );
    out
}

/// The secret found under a name is the first of that name; none is found only
/// if there is none.
pub proof fn law_a_secret_is_found_by_its_name(
    secrets: Seq<ResolvedSecret>,
    name: Seq<char>,
    at: int,
)
    requires
        0 <= at <= secrets.len(),
        forall|i: int| 0 <= i < at ==> (#[trigger] secrets[i]).name@ != name,
        at < secrets.len() ==> secrets[at].name@ == name,
    ensures
        resolved(secrets, name) == if at < secrets.len() {
            Some(secrets[at].bytes@)
        } else {
            None
        },
    decreases at,
{
    if at > 0 {
        assert(secrets[0].name@ != name);
        let rest = secrets.drop_first();
        assert forall|i: int| 0 <= i < at - 1 implies (#[trigger] rest[i]).name@ != name by {
            assert(rest[i] == secrets[i + 1]);
        }
        law_a_secret_is_found_by_its_name(rest, name, at - 1);
    }
}

/// Which key a device spills with: none without a key encryption key. With one
/// it takes a store, a secret of that name and a key object that opens, under
/// the secret and bound to spilling, to two keys; anything less is refused.
pub proof fn law_which_key_a_device_spills_with(
    section: SpillSection,
    secrets: Seq<ResolvedSecret>,
    object: Option<Seq<u8>>,
)
    ensures
        ({
            let r = codec_keys(section, secrets, object);
            &&& section.kek is None ==> r == Ok::<Option<Seq<u8>>, SetupError>(None)
            &&& section.kek is Some ==> {
                let secret = resolved(secrets, section.kek->Some_0@);
                &&& section.store is None ==> r == Err::<Option<Seq<u8>>, SetupError>(
                    SetupError::KekWithoutStore,
                )
                &&& section.store is Some && secret is None ==> r == Err::<
                    Option<Seq<u8>>,
                    SetupError,
                >(SetupError::UnknownSecret)
                &&& section.store is Some && secret is Some && object is None ==> r == Err::<
                    Option<Seq<u8>>,
                    SetupError,
                >(SetupError::KeyObjectMissing)
                &&& section.store is Some && secret is Some && object is Some ==> {
                    let kek = secret->Some_0;
                    let bytes = object->Some_0;
                    let opened = gcm_opened(
                        kek,
                        bytes.subrange(0, 12),
                        spill_auth_data(),
                        bytes.subrange(12, bytes.len() as int),
                    );
                    if kek.len() == 32 && bytes.len() >= 28 && opened is Some
                        && opened->Some_0.len() == 64 {
                        r == Ok::<Option<Seq<u8>>, SetupError>(opened)
                    } else {
                        r == Err::<Option<Seq<u8>>, SetupError>(SetupError::KeyObjectSealed)
                    }
                }
            }
        }),
{
}

/// The limits the evictor works with are those of the section, each under its
/// own name, and the device's own paths and geometry.
pub proof fn law_the_evictor_gets_the_configured_limits(
    cfg: EvictorConfig,
    device: DeviceSection,
    section: SpillSection,
    stripe_sector_count: u64,
    target_sector_count: u64,
    alignment: usize,
)
    requires
        evictor_configured(
            cfg,
            device,
            section,
            stripe_sector_count,
            target_sector_count,
            alignment,
        ),
    ensures
        cfg.max_local_bytes == section.max_local_bytes,
        cfg.low_water_bytes == section.low_water_bytes,
        cfg.hard_margin_bytes == section.hard_margin_bytes,
        cfg.min_free_bytes == section.min_free_bytes,
        cfg.clean_eviction == section.clean_eviction && cfg.on_full == section.on_full,
        cfg.max_concurrent_evictions == section.max_concurrent_evictions,
        cfg.stripe_sector_count == stripe_sector_count,
        cfg.target_sector_count == target_sector_count,
        cfg.data_path@ == device.data_path@ && cfg.device_id@ == device.device_id@,
        cfg.sweep_batch == 4096 && cfg.alignment == alignment,
{
}

} // verus!
