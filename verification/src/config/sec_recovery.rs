use vstd::prelude::*;

use crate::text;

verus! {

/// Restart-recovery configuration.
///
/// After a BS process restart (update / crash / service restart) the in-RAM MM registry is
/// empty, yet radios are still RF-camped on the cell — so the first group PTT fails ("no
/// listeners") until each radio happens to re-register on its own (often only on power-cycle).
///
/// When `enabled`, the BS persists a small JSON cache of known terminals (ISSI + their
/// persistent groups + energy-saving mode) and, on startup, proactively sends
/// D-LOCATION-UPDATE-COMMAND (ETSI EN 300 392-2 §16.4.4) to each cached terminal, TDMA-paced,
/// forcing them to re-register with a group identity report. The existing coverage-return
/// re-affiliation path then restores CMCE/Brew group state — PTT works again within seconds of
/// boot, without human intervention.
///
/// Default OFF: proactively keying COMMANDs at a batch of ISSIs right after boot is RF-affecting
/// (MCCH load), so it must be a deliberate operator choice, consistent with the other opt-in
/// capabilities in this stack.
#[derive(Debug, Clone)]
pub struct CfgRecovery {
    /// Master on/off for proactive restart recovery.
    pub enabled: bool,
    /// Optional scope filter. Empty = recover every ISSI in the persisted cache (mirrors the
    /// empty-whitelist = "all" semantics of [`super::sec_security::CfgSecurity`]). Non-empty =
    /// only replay COMMANDs to these ISSIs.
    pub issi_allowlist: Vec<u32>,
    /// Optional explicit path to the recovery cache JSON. `None` = the binary derives
    /// `<config-dir>/recovery_cache.json` (the radioid_cache.json convention).
    pub cache_path: Option<String>,
    /// Per-ISSI D-LOCATION-UPDATE-COMMAND re-send attempts at startup before giving up on a
    /// terminal that never answers (e.g. powered off mid-outage). Clamped 1..=500.
    pub max_replay_attempts: u32,
    /// Number of COMMANDs emitted per TDMA frame during the startup sweep, to bound MCCH load.
    /// Clamped 1..=18.
    pub replay_per_frame: u32,
    /// Debounce window (seconds) for coalescing a burst of registry changes into one atomic
    /// cache write, to spare SD-card wear. Clamped 1..=300.
    pub debounce_secs: u64,
    /// Hard cap on cached ISSIs (bounds disk size + boot replay time). Clamped 1..=65535.
    pub max_cached_issis: u32,
}

impl CfgRecovery {
    /// Every number is in the range that it is clamped to.
    pub open spec fn in_range(self) -> bool {
        &&& 1 <= self.max_replay_attempts <= 500
        &&& 1 <= self.replay_per_frame <= 18
        &&& 1 <= self.debounce_secs <= 300
        &&& 1 <= self.max_cached_issis <= 65535
    }
}

impl Default for CfgRecovery {
    fn default() -> (cfg: Self)
        ensures
            !cfg.enabled,
            cfg.issi_allowlist@ == Seq::<u32>::empty(),
            cfg.cache_path is None,
            cfg.max_replay_attempts == 150,
            cfg.replay_per_frame == 1,
            cfg.debounce_secs == 5,
            cfg.max_cached_issis == 1024,
    {
        CfgRecovery {
            enabled: false,
            issi_allowlist: Vec::new(),
            cache_path: None,
            max_replay_attempts: 150,
            replay_per_frame: 1,
            debounce_secs: 5,
            max_cached_issis: 1024,
        }
    }
}

/// The `[recovery]` table as it is read. A key that is missing has the value of its
/// `default_..` function, or is off or empty.
#[derive(Debug, Clone)]
pub struct CfgRecoveryDto {
    pub enabled: bool,
    pub issi_allowlist: Vec<u32>,
    pub cache_path: Option<String>,
    pub max_replay_attempts: u32,
    pub replay_per_frame: u32,
    pub debounce_secs: u64,
    pub max_cached_issis: u32,
    /// The names of unrecognised keys, so that typos (e.g. `enable`, `max_replay_attempt`) can be
    /// rejected rather than silently leaving the feature dormant.
    pub extra: Vec<String>,
}

impl Default for CfgRecoveryDto {
    fn default() -> (dto: Self)
        ensures
            !dto.enabled,
            dto.issi_allowlist@ == Seq::<u32>::empty(),
            dto.cache_path is None,
            dto.max_replay_attempts == 0,
            dto.replay_per_frame == 0,
            dto.debounce_secs == 0,
            dto.max_cached_issis == 0,
            dto.extra@ == Seq::<String>::empty(),
    {
        CfgRecoveryDto {
            enabled: false,
            issi_allowlist: Vec::new(),
            cache_path: None,
            max_replay_attempts: 0,
            replay_per_frame: 0,
            debounce_secs: 0,
            max_cached_issis: 0,
            extra: Vec::new(),
        }
    }
}

pub fn default_max_replay_attempts() -> (n: u32)
    ensures
        n == 150,
{
    150
}

pub fn default_replay_per_frame() -> (n: u32)
    ensures
        n == 1,
{
    1
}

pub fn default_debounce_secs() -> (n: u64)
    ensures
        n == 5,
{
    5
}

pub fn default_max_cached_issis() -> (n: u32)
    ensures
        n == 1024,
{
    1024
}

/// The number from 1 to `max` that is nearest to `value`.
pub open spec fn clamped(value: int, max: int) -> int {
    if value < 1 {
        1
    } else if value > max {
        max
    } else {
        value
    }
}

/// The number from 1 to `max` that is nearest to `value`.
fn clamp(value: u64, max: u64) -> (n: u64)
    requires
        max >= 1,
    ensures
        n == clamped(value as int, max as int),
{
    if value < 1 {
        1
    } else if value > max {
        max
    } else {
        value
    }
}

/// A path that is white space alone stands for the default path.
pub open spec fn path_of(path: Option<String>) -> Option<String> {
    match path {
        Some(p) => if text::trimmed(p@).len() == 0 {
            None
        } else {
            Some(p)
        },
        None => None,
    }
}

pub fn apply_recovery_patch(dto: CfgRecoveryDto) -> (cfg: CfgRecovery)
    ensures
        cfg.enabled == dto.enabled,
        cfg.issi_allowlist == dto.issi_allowlist,
        cfg.cache_path == path_of(dto.cache_path),
        cfg.max_replay_attempts == clamped(dto.max_replay_attempts as int, 500),
        cfg.replay_per_frame == clamped(dto.replay_per_frame as int, 18),
        cfg.debounce_secs == clamped(dto.debounce_secs as int, 300),
        cfg.max_cached_issis == clamped(dto.max_cached_issis as int, 65535),
        cfg.in_range(),
{
    CfgRecovery {
        enabled: dto.enabled,
        issi_allowlist: dto.issi_allowlist,
        // An empty/whitespace string means "use the default path" (matching the documented
        // `cache_path = ""` example), not a literal empty path that would disable persistence.
        cache_path: match dto.cache_path {
            Some(path) => if text::trim(path.as_str()).len() == 0 {
                None
            } else {
                Some(path)
            },
            None => None,
        },
        // Clamp to sane ranges so a bad TOML value can't wedge boot.
        max_replay_attempts: clamp(dto.max_replay_attempts as u64, 500) as u32,
        replay_per_frame: clamp(dto.replay_per_frame as u64, 18) as u32,
        debounce_secs: clamp(dto.debounce_secs, 300),
        max_cached_issis: clamp(dto.max_cached_issis as u64, 65535) as u32,
    }
}

/// Clamping ends within the range, and changes nothing that is there already.
pub proof fn law_clamping_is_a_projection(value: int, max: int)
    requires
        max >= 1,
    ensures
        1 <= clamped(value, max) <= max,
        1 <= value <= max ==> clamped(value, max) == value,
        clamped(clamped(value, max), max) == clamped(value, max),
{
}

/// What the `[recovery]` table says is in force, with every number brought into the range that it
/// has: up to 500 attempts, up to 18 commands a frame, up to 300 seconds, up to 65535 terminals,
/// and one of each at least. A path that is white space alone is no path.
pub proof fn law_the_recovery_table_is_in_force(dto: CfgRecoveryDto, cfg: CfgRecovery)
    requires
        call_ensures(apply_recovery_patch, (dto,), cfg),
    ensures
        cfg.enabled == dto.enabled,
        cfg.issi_allowlist@ == dto.issi_allowlist@,
        dto.cache_path is None ==> cfg.cache_path is None,
        dto.cache_path matches Some(path) ==> {
            &&& (forall|i: int| 0 <= i < path@.len() ==> text::white_space(#[trigger] path@[i]))
                ==> cfg.cache_path is None
            &&& forall|i: int|
                0 <= i < path@.len() && !text::white_space(#[trigger] path@[i]) ==> cfg.cache_path
                    == Some(path)
        },
        brought_into(dto.max_replay_attempts as int, cfg.max_replay_attempts as int, 500),
        brought_into(dto.replay_per_frame as int, cfg.replay_per_frame as int, 18),
        brought_into(dto.debounce_secs as int, cfg.debounce_secs as int, 300),
        brought_into(dto.max_cached_issis as int, cfg.max_cached_issis as int, 65535),
{
    if let Some(path) = dto.cache_path {
        text::law_trimmed_is_between_white_space(path@);
        let (from, to) = choose|from: int, to: int|
            #![trigger path@.subrange(from, to)]
            {
                &&& 0 <= from <= to <= path@.len()
                &&& text::trimmed(path@) == path@.subrange(from, to)
                &&& forall|i: int|
                    0 <= i < from || to <= i < path@.len() ==> text::white_space(
                        #[trigger] path@[i],
                    )
                &&& from < to ==> !text::white_space(path@[from]) && !text::white_space(
                    path@[to - 1],
                )
            };
        assert(text::trimmed(path@).len() == to - from);
    }
}

/// `after` is `value`, or the end of the range from 1 to `max` that `value` lies beyond.
pub open spec fn brought_into(value: int, after: int, max: int) -> bool {
    &&& 1 <= value <= max ==> after == value
    &&& value < 1 ==> after == 1
    &&& value > max ==> after == max
}

/// A table that says nothing has the values of no table.
pub proof fn law_the_recovery_defaults_agree(
    cfg: CfgRecovery,
    attempts: u32,
    per_frame: u32,
    secs: u64,
    issis: u32,
)
    requires
        call_ensures(CfgRecovery::default, (), cfg),
        call_ensures(default_max_replay_attempts, (), attempts),
        call_ensures(default_replay_per_frame, (), per_frame),
        call_ensures(default_debounce_secs, (), secs),
        call_ensures(default_max_cached_issis, (), issis),
    ensures
        !cfg.enabled,
        cfg.issi_allowlist@.len() == 0,
        cfg.cache_path is None,
        cfg.max_replay_attempts == 150 && attempts == 150,
        cfg.replay_per_frame == 1 && per_frame == 1,
        cfg.debounce_secs == 5 && secs == 5,
        cfg.max_cached_issis == 1024 && issis == 1024,
{
}

/// Every table can be read, and one made without values is off, with nothing in it and zeros for its
/// numbers.
pub proof fn law_every_recovery_table_can_be_read(dto: CfgRecoveryDto, blank: CfgRecoveryDto)
    requires
        call_ensures(CfgRecoveryDto::default, (), blank),
    ensures
        call_requires(apply_recovery_patch, (dto,)),
        !blank.enabled,
        blank.issi_allowlist@.len() == 0,
        blank.cache_path is None,
        blank.max_replay_attempts == 0,
        blank.replay_per_frame == 0,
        blank.debounce_secs == 0,
        blank.max_cached_issis == 0,
        blank.extra@.len() == 0,
{
}

} // verus!
