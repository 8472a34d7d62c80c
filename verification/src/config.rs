//! The saved connection settings: normalising them, deciding what a save
//! changes, and the checks that commands make before they go to OSS.

use vstd::prelude::*;
use crate::paths::{normalize_prefix, normalized_prefix};
use crate::text::{
    has_prefix, lemma_trimmed_fixed, lemma_trimmed_idempotent, lemma_trimmed_shape, starts_with, trim,
    trimmed,
};

verus! {

/// `oss-`, the form every region name takes.
pub open spec fn oss_marker() -> Seq<char> {
    seq!['o', 's', 's', '-']
}

/// The region used when none is given: `oss-cn-hongkong`.
pub open spec fn default_region_name() -> Seq<char> {
    seq!['o', 's', 's', '-', 'c', 'n', '-', 'h', 'o', 'n', 'g', 'k', 'o', 'n', 'g']
}

/// The region in normal form: trimmed; the default when empty; given the
/// `oss-` prefix when it lacks it.
pub open spec fn oss_region(v: Seq<char>) -> Seq<char> {
    let r = trimmed(v);
    if r.len() == 0 {
        default_region_name()
    } else if starts_with(r, oss_marker()) {
        r
    } else {
        oss_marker() + r
    }
}

/// The default region, `oss-cn-hongkong`.
pub fn default_region() -> (r: String)
    ensures
        r@ == default_region_name(),
{
    let name = "oss-cn-hongkong";
    proof {
        reveal_strlit("oss-cn-hongkong");
        assert(name@ =~= default_region_name());
    }
    name.to_owned()
}

fn region_in_normal_form(value: &str) -> (r: String)
    ensures
        r@ == oss_region(value@),
{
    let region = trim(value);
    let marker = "oss-";
    proof {
        reveal_strlit("oss-");
        assert(marker@ =~= oss_marker());
    }
    if region.as_str().is_empty() {
        default_region()
    } else if has_prefix(region.as_str(), marker) {
        region
    } else {
        let mut r = marker.to_owned();
        r.append(region.as_str());
        r
    }
}

/// The region a configuration names, in normal form (`oss-<region>`).
pub fn normalize_region(value: &str) -> (r: String)
    ensures
        r@ == oss_region(value@),
{
    region_in_normal_form(value)
}

/// The region a bucket listing reports for a bucket, in the same normal
/// form as `normalize_region`.
pub fn normalize_bucket_region(value: &str) -> (r: String)
    ensures
        r@ == oss_region(value@),
{
    region_in_normal_form(value)
}

/// The settings kept on disk.
pub struct LocalConfig {
    pub access_key_id: String,
    pub access_key_secret: String,
    pub bucket: String,
    pub region: String,
    pub prefix: String,
}

/// The settings as strings of characters.
pub struct ConfigView {
    pub access_key_id: Seq<char>,
    pub access_key_secret: Seq<char>,
    pub bucket: Seq<char>,
    pub region: Seq<char>,
    pub prefix: Seq<char>,
}

impl View for LocalConfig {
    type V = ConfigView;

    open spec fn view(&self) -> ConfigView {
        ConfigView {
            access_key_id: self.access_key_id@,
            access_key_secret: self.access_key_secret@,
            bucket: self.bucket@,
            region: self.region@,
            prefix: self.prefix@,
        }
    }
}

/// The settings in normal form: keys and bucket trimmed, region and prefix
/// normalised.
pub open spec fn normalized_config(c: ConfigView) -> ConfigView {
    ConfigView {
        access_key_id: trimmed(c.access_key_id),
        access_key_secret: trimmed(c.access_key_secret),
        bucket: trimmed(c.bucket),
        region: oss_region(c.region),
        prefix: normalized_prefix(c.prefix),
    }
}

/// Both halves of the access key are filled in.
pub open spec fn has_credentials(c: ConfigView) -> bool {
    c.access_key_id.len() > 0 && c.access_key_secret.len() > 0
}

/// The access key is filled in and a bucket is chosen.
pub open spec fn has_target(c: ConfigView) -> bool {
    has_credentials(c) && c.bucket.len() > 0
}

/// Brings every setting to its normal form.
pub fn normalize_config(config: LocalConfig) -> (r: LocalConfig)
    ensures
        r@ == normalized_config(config@),
{
    LocalConfig {
        access_key_id: trim(config.access_key_id.as_str()),
        access_key_secret: trim(config.access_key_secret.as_str()),
        bucket: trim(config.bucket.as_str()),
        region: normalize_region(config.region.as_str()),
        prefix: normalize_prefix(config.prefix.as_str()),
    }
}

/// Whether both halves of the access key are set.
pub fn has_oss_config(config: &LocalConfig) -> (r: bool)
    ensures
        r == has_credentials(config@),
{
    !config.access_key_id.as_str().is_empty() && !config.access_key_secret.as_str().is_empty()
}

/// Whether the access key is set and a bucket is chosen.
pub fn has_bucket_target(config: &LocalConfig) -> (r: bool)
    ensures
        r == has_target(config@),
{
    has_oss_config(config) && !config.bucket.as_str().is_empty()
}

/// The settings of a fresh install: nothing filled in, the default region.
pub open spec fn fresh_config() -> ConfigView {
    ConfigView {
        access_key_id: Seq::empty(),
        access_key_secret: Seq::empty(),
        bucket: Seq::empty(),
        region: default_region_name(),
        prefix: Seq::empty(),
    }
}

/// The settings used when none are saved, and written back by a reset.
pub fn fresh_local_config() -> (r: LocalConfig)
    ensures
        r@ == normalized_config(fresh_config()),
        r@ == fresh_config(),
{
    let r = normalize_config(
        LocalConfig {
            access_key_id: String::new(),
            access_key_secret: String::new(),
            bucket: String::new(),
            region: default_region(),
            prefix: String::new(),
        },
    );
    proof {
        lemma_normal_fresh();
    }
    r
}

proof fn lemma_normal_fresh()
    ensures
        normalized_config(fresh_config()) == fresh_config(),
{
    let e = Seq::<char>::empty();
    assert(trimmed(e) =~= e);
    assert(trimmed(default_region_name()) =~= default_region_name()) by {
        let d = default_region_name();
        assert(!crate::text::is_white_space(d[0]));
        assert(!crate::text::is_white_space(d.last()));
    }
    assert(starts_with(default_region_name(), oss_marker())) by {
        assert(default_region_name().subrange(0, 4) =~= oss_marker());
    }
    assert(crate::text::split_on(e, '/') =~= seq![e]);
    assert(crate::paths::clean_segments(seq![e]) =~= Seq::<Seq<char>>::empty()) by {
        assert(seq![e].drop_last() =~= Seq::<Seq<char>>::empty());
        assert(seq![e].last() == e);
        assert(crate::paths::names_nothing(trimmed(e)));
        assert(crate::paths::clean_segments(Seq::<Seq<char>>::empty()) =~= Seq::<Seq<char>>::empty());
    }
    assert(normalized_prefix(e) =~= e);
}

/// What the settings page shows.
pub struct PublicConfig {
    pub bucket: String,
    pub region: String,
    pub prefix: String,
    pub has_oss_config: bool,
    pub config_path: String,
}

/// The shown part of the settings, with where they are stored.
pub fn public_config_of(config: LocalConfig, config_path: String) -> (r: PublicConfig)
    ensures
        r.bucket@ == config@.bucket,
        r.region@ == config@.region,
        r.prefix@ == config@.prefix,
        r.has_oss_config == has_credentials(config@),
        r.config_path@ == config_path@,
{
    let has_config = has_oss_config(&config);
    PublicConfig {
        bucket: config.bucket,
        region: config.region,
        prefix: config.prefix,
        has_oss_config: has_config,
        config_path,
    }
}

/// Why a command refused to run with the saved settings.
#[derive(PartialEq, Eq, Structural, Clone, Copy, Debug)]
pub enum ConfigError {
    /// The access key must be filled in before buckets can be listed.
    CredentialsNotSet,
    /// Settings without both halves of the access key cannot be saved.
    CredentialsIncomplete,
    /// A bucket must be chosen first.
    BucketNotChosen,
}

/// The fields a save changes; those left out keep their saved value.
pub struct SaveConfigPayload {
    pub access_key_id: Option<String>,
    pub access_key_secret: Option<String>,
    pub bucket: Option<String>,
    pub region: Option<String>,
    pub prefix: Option<String>,
}

/// The given value, else the current one.
pub open spec fn pick(given: Option<String>, current: Seq<char>) -> Seq<char> {
    match given {
        Some(v) => v@,
        None => current,
    }
}

/// The settings a save asks for, before normalisation.
pub open spec fn merged_config(current: ConfigView, payload: SaveConfigPayload) -> ConfigView {
    ConfigView {
        access_key_id: pick(payload.access_key_id, current.access_key_id),
        access_key_secret: pick(payload.access_key_secret, current.access_key_secret),
        bucket: pick(payload.bucket, current.bucket),
        region: pick(payload.region, current.region),
        prefix: pick(payload.prefix, current.prefix),
    }
}

/// Whether the new settings reach OSS differently: another key, bucket or
/// region (a new default prefix alone does not).
pub open spec fn connection_changed(current: ConfigView, next: ConfigView) -> bool {
    next.access_key_id != current.access_key_id || next.access_key_secret
        != current.access_key_secret || next.bucket != current.bucket || next.region
        != current.region
}

/// The settings to store, and whether access to the bucket must be checked
/// before they are stored.
pub struct ConfigSavePlan {
    pub config: LocalConfig,
    pub check_access: bool,
}

fn pick_string(given: Option<String>, current: String) -> (r: String)
    ensures
        r@ == pick(given, current@),
{
    match given {
        Some(v) => v,
        None => current,
    }
}

/// Plans a save: the merged settings in normal form, refused when either
/// half of the access key is missing; access is checked when the connection
/// changes and a bucket is chosen.
pub fn plan_config_save(current: LocalConfig, payload: SaveConfigPayload) -> (r: Result<
    ConfigSavePlan,
    ConfigError,
>)
    ensures
        ({
            let next = normalized_config(merged_config(current@, payload));
            match r {
                Ok(plan) => has_credentials(next) && plan.config@ == next && plan.check_access == (
                connection_changed(current@, next) && next.bucket.len() > 0),
                Err(e) => !has_credentials(next) && e == ConfigError::CredentialsIncomplete,
            }
        }),
        r is Ok && r->Ok_0.config@.bucket.len() > 0 && r->Ok_0.config@.region != current@.region
            ==> r->Ok_0.check_access,
        r is Ok && r->Ok_0.config@.bucket.len() > 0 && r->Ok_0.config@.bucket != current@.bucket
            ==> r->Ok_0.check_access,
        r is Ok && r->Ok_0.config@.bucket.len() > 0 && r->Ok_0.config@.access_key_id
            != current@.access_key_id ==> r->Ok_0.check_access,
        r is Ok && r->Ok_0.config@.bucket.len() > 0 && r->Ok_0.config@.access_key_secret
            != current@.access_key_secret ==> r->Ok_0.check_access,
        r is Ok && r->Ok_0.check_access ==> r->Ok_0.config@.bucket.len() > 0,
        r is Ok && r->Ok_0.config@.access_key_id == current@.access_key_id
            && r->Ok_0.config@.access_key_secret == current@.access_key_secret
            && r->Ok_0.config@.bucket == current@.bucket && r->Ok_0.config@.region
            == current@.region ==> !r->Ok_0.check_access,
{
    let old_id = current.access_key_id.clone();
    let old_secret = current.access_key_secret.clone();
    let old_bucket = current.bucket.clone();
    let old_region = current.region.clone();
    let next = normalize_config(
        LocalConfig {
            access_key_id: pick_string(payload.access_key_id, current.access_key_id),
            access_key_secret: pick_string(payload.access_key_secret, current.access_key_secret),
            bucket: pick_string(payload.bucket, current.bucket),
            region: pick_string(payload.region, current.region),
            prefix: pick_string(payload.prefix, current.prefix),
        },
    );
    if !has_oss_config(&next) {
        return Err(ConfigError::CredentialsIncomplete);
    }
    let changed = next.access_key_id != old_id || next.access_key_secret != old_secret
        || next.bucket != old_bucket || next.region != old_region;
    let check_access = changed && !next.bucket.as_str().is_empty();
    Ok(ConfigSavePlan { config: next, check_access })
}

/// An access key and the region to list its buckets in.
pub struct ListCredentials {
    pub access_key_id: String,
    pub access_key_secret: String,
    pub region: String,
}

/// The credentials typed into the bucket picker before they are saved.
pub struct BucketPreviewPayload {
    pub access_key_id: String,
    pub access_key_secret: String,
    pub region: Option<String>,
}

/// The credentials for previewing the buckets of a key not yet saved:
/// trimmed, with the region in normal form; both halves are required.
pub fn preview_credentials(payload: BucketPreviewPayload) -> (r: Result<ListCredentials, ConfigError>)
    ensures
        ({
            let id = trimmed(payload.access_key_id@);
            let secret = trimmed(payload.access_key_secret@);
            match r {
                Ok(c) => id.len() > 0 && secret.len() > 0 && c.access_key_id@ == id
                    && c.access_key_secret@ == secret && c.region@ == oss_region(
                    match payload.region {
                        Some(v) => v@,
                        None => Seq::empty(),
                    },
                ),
                Err(e) => (id.len() == 0 || secret.len() == 0) && e == ConfigError::CredentialsNotSet,
            }
        }),
{
    let access_key_id = trim(payload.access_key_id.as_str());
    let access_key_secret = trim(payload.access_key_secret.as_str());
    let region = match payload.region {
        Some(v) => normalize_region(v.as_str()),
        None => {
            proof {
                reveal_strlit("");
            }
            normalize_region("")
        },
    };
    if access_key_id.as_str().is_empty() || access_key_secret.as_str().is_empty() {
        return Err(ConfigError::CredentialsNotSet);
    }
    Ok(ListCredentials { access_key_id, access_key_secret, region })
}

/// The saved credentials for listing buckets, when the key is filled in.
pub fn saved_list_credentials(config: &LocalConfig) -> (r: Result<ListCredentials, ConfigError>)
    ensures
        match r {
            Ok(c) => has_credentials(config@) && c.access_key_id@ == config@.access_key_id
                && c.access_key_secret@ == config@.access_key_secret && c.region@ == config@.region,
            Err(e) => !has_credentials(config@) && e == ConfigError::CredentialsNotSet,
        },
{
    if !has_oss_config(config) {
        return Err(ConfigError::CredentialsNotSet);
    }
    Ok(
        ListCredentials {
            access_key_id: config.access_key_id.clone(),
            access_key_secret: config.access_key_secret.clone(),
            region: config.region.clone(),
        },
    )
}

/// Refuses commands that work on a bucket until one is chosen.
pub fn require_bucket_target(config: &LocalConfig) -> (r: Result<(), ConfigError>)
    ensures
        r is Ok <==> has_target(config@),
        match r {
            Ok(_) => true,
            Err(e) => e == ConfigError::BucketNotChosen,
        },
{
    if has_bucket_target(config) {
        Ok(())
    } else {
        Err(ConfigError::BucketNotChosen)
    }
}

/// A bucket and its region, as the bucket picker shows them.
pub struct BucketSummary {
    pub name: String,
    pub region: String,
}

/// A bucket of a listing: its name and its location in normal form.
pub fn bucket_summary(name: &str, location: &str) -> (r: BucketSummary)
    ensures
        r.name@ == name@,
        r.region@ == oss_region(location@),
{
    BucketSummary { name: name.to_owned(), region: normalize_bucket_region(location) }
}

/// Whether a bucket of the listing has the given name.
pub fn bucket_listed(buckets: &Vec<BucketSummary>, bucket: &str) -> (r: bool)
    ensures
        r == exists|i: int| 0 <= i < buckets@.len() && #[trigger] buckets@[i].name@ == bucket@,
{
    let n = buckets.len();
    let mut i: usize = 0;
    while i < n
        invariant
            n == buckets.len(),
            i <= n,
            forall|k: int| 0 <= k < i ==> #[trigger] buckets@[k].name@ != bucket@,
        decreases n - i,
    {
        if crate::ordered::chars_equal(
            &crate::text::chars_of(buckets[i].name.as_str()),
            &crate::text::chars_of(bucket),
        ) {
            assert(buckets@[i as int].name@ == bucket@);
            return true;
        }
        i = i + 1;
    }
    false
}

/// Every region in normal form names itself with `oss-`, and normalising it
/// again changes nothing.
pub proof fn law_region_normal_form(v: Seq<char>)
    ensures
        starts_with(oss_region(v), oss_marker()),
        oss_region(oss_region(v)) == oss_region(v),
{
    let r = trimmed(v);
    lemma_trimmed_shape(v);
    if r.len() == 0 {
        let d = default_region_name();
        assert(d.subrange(0, 4) =~= oss_marker());
        lemma_trimmed_fixed(d);
    } else if starts_with(r, oss_marker()) {
        lemma_trimmed_idempotent(v);
    } else {
        let m = oss_marker() + r;
        assert(m.subrange(0, 4) =~= oss_marker());
        assert(m.last() == r.last());
        lemma_trimmed_fixed(m);
    }
}

/// Normalising settings in normal form changes nothing.
pub proof fn law_normalize_config_idempotent(c: ConfigView)
    ensures
        normalized_config(normalized_config(c)) == normalized_config(c),
{
    lemma_trimmed_idempotent(c.access_key_id);
    lemma_trimmed_idempotent(c.access_key_secret);
    lemma_trimmed_idempotent(c.bucket);
    law_region_normal_form(c.region);
    crate::paths::law_normalize_prefix_idempotent(c.prefix);
}

/// A save that changes only the default prefix of settings in normal form
/// never asks for an access check.
pub proof fn law_prefix_only_save_skips_access_check(current: ConfigView, payload: SaveConfigPayload)
    requires
        normalized_config(current) == current,
        payload.access_key_id is None,
        payload.access_key_secret is None,
        payload.bucket is None,
        payload.region is None,
    ensures
        !connection_changed(current, normalized_config(merged_config(current, payload))),
{
}

/// A save that moves the settings to another region, with both halves of
/// the access key and a bucket set, asks for an access check: the bucket is
/// checked in the region it will be used in before anything is stored.
pub proof fn law_region_change_checks_access(current: ConfigView, payload: SaveConfigPayload)
    requires
        payload.region is Some,
        oss_region(payload.region->0@) != current.region,
        has_credentials(normalized_config(merged_config(current, payload))),
        normalized_config(merged_config(current, payload)).bucket.len() > 0,
    ensures
        ({
            let next = normalized_config(merged_config(current, payload));
            &&& next.region == oss_region(payload.region->0@)
            &&& next.region != current.region
            &&& connection_changed(current, next) && next.bucket.len() > 0
        }),
{
}

/// A save that changes the key, the secret or the bucket, with a bucket
/// set, asks for an access check; one that changes none of the four
/// connection settings (key, secret, bucket, region) never does.
pub proof fn law_access_check_follows_connection(current: ConfigView, next: ConfigView)
    ensures
        next.bucket.len() > 0 && (next.access_key_id != current.access_key_id
            || next.access_key_secret != current.access_key_secret || next.bucket != current.bucket
            || next.region != current.region) ==> connection_changed(current, next),
        next.access_key_id == current.access_key_id && next.access_key_secret
            == current.access_key_secret && next.bucket == current.bucket && next.region
            == current.region ==> !connection_changed(current, next),
{
}

} // verus!
