use std::collections::HashMap;

use vstd::prelude::*;

use crate::text;

verus! {

/// How `issi_whitelist` is interpreted. A bare `Vec` cannot express "deny everyone": an operator
/// who empties the list to lock the cell down actually opens it fully under the legacy semantics.
/// This makes the posture explicit.
#[derive(Debug, Clone, Copy, PartialEq, Eq, Structural)]
pub enum WhitelistMode {
    /// No mode configured — legacy semantics: an empty list means "open network", a non-empty
    /// list is an allow-list. Default so existing configs behave exactly as before.
    Auto,
    /// Access control off: every ISSI is allowed whatever the list holds.
    Open,
    /// The list is authoritative. An EMPTY list therefore means DENY-ALL — the only way to
    /// express "lock the cell down", which `Auto` cannot.
    Enforce,
}

impl Default for WhitelistMode {
    fn default() -> (mode: Self)
        ensures
            mode is Auto,
    {
        WhitelistMode::Auto
    }
}

/// The mode that a text names, in capitals or not, with white space around it or not.
pub open spec fn mode_of(text: Seq<char>) -> Option<WhitelistMode> {
    let word = text::lower(text::trimmed(text));
    if word == "auto"@ {
        Some(WhitelistMode::Auto)
    } else if word == "open"@ || word == "off"@ || word == "disabled"@ {
        Some(WhitelistMode::Open)
    } else if word == "enforce"@ || word == "strict"@ {
        Some(WhitelistMode::Enforce)
    } else {
        None
    }
}

impl WhitelistMode {
    pub fn parse(s: &str) -> (mode: Option<Self>)
        ensures
            mode == mode_of(s@),
    {
        let lowered: String = text::to_lower(&text::trim(s));
        let word: &str = lowered.as_str();
        if text::same(word, "auto") {
            Some(WhitelistMode::Auto)
        } else if text::same(word, "open") || text::same(word, "off") || text::same(
            word,
            "disabled",
        ) {
            Some(WhitelistMode::Open)
        } else if text::same(word, "enforce") || text::same(word, "strict") {
            Some(WhitelistMode::Enforce)
        } else {
            None
        }
    }
}

/// Default cap on the MM client registry. Uplink is unauthenticated (EN 300 392-7 TEA is not
/// implemented), so any radio can claim any of the 2^24 ISSIs — without a cap a registration
/// flood grows the registry until the cell is OOM-killed.
pub const DEFAULT_MAX_REGISTERED_CLIENTS: usize = 2048;

/// Default accepted registrations per minute, per source ISSI. Generous for a real radio (T351
/// plus a post-PTT roaming update), tight enough that one forged ISSI cannot churn the registry.
pub const DEFAULT_REGISTRATION_RATE_LIMIT_PER_MIN: u32 = 30;

/// Access control / security configuration
#[derive(Debug, Clone)]
pub struct CfgSecurity {
    /// ISSI whitelist. Interpretation depends on `whitelist_mode`.
    /// Example config:
    ///   [security]
    ///   issi_whitelist = [2260571, 1001, 1002]
    ///   whitelist_mode = "enforce"   # empty list = deny-all
    pub issi_whitelist: Vec<u32>,
    /// See [`WhitelistMode`].
    pub whitelist_mode: WhitelistMode,
    /// Honour an unauthenticated U-ITSI-DETACH / migrating location update as a teardown of the
    /// claimed ISSI. There is no air-interface authentication, so such a PDU is forgeable and a
    /// replay is a targeted DoS; an operator who does not need detach at all can switch it off.
    pub honour_unauthenticated_detach: bool,
    /// Hard cap on the MM client registry (0 = unlimited, pre-hardening behaviour).
    pub max_registered_clients: usize,
    /// Accepted registrations per minute per source ISSI (0 = disabled).
    pub registration_rate_limit_per_min: u32,
    /// Send a D-AUTHENTICATION demand (one-way, SwMI authenticates the MS — EN 300 392-7
    /// clause 4.1.2) after every successful registration of an ISSI that has a key in
    /// `issi_keys`. ISSIs with no configured key are left unauthenticated regardless of this
    /// flag, so it is safe to enable while only some radios have been provisioned with a K.
    pub authentication_enabled: bool,
    /// Per-ISSI TETRA authentication key K (128 bits), used only for [`authentication_enabled`].
    ///
    /// SECURITY NOTE: this stores K in plaintext in `config.toml`. Anyone who can read that file
    /// (or the dashboard's config editor / backups) can impersonate the corresponding radio's
    /// authentication response and derive its DCK. Treat this file with the same care as an SSH
    /// private key: restrict its filesystem permissions, and if you use the dashboard's remote
    /// config editor, be aware it may transit and be stored wherever that connection is proxied.
    pub issi_keys: HashMap<u32, [u8; 16]>,
    /// STRICT MODE: refuse registration to any ISSI that has no key in [`Self::issi_keys`], and
    /// deregister a terminal that fails its authentication challenge.
    ///
    /// Requires [`Self::authentication_enabled`]; ignored on its own. OFF by default.
    ///
    /// ⚠️ Enabling this locks out every radio that has not been provisioned with a matching K —
    /// there is no grace period and no self-service enrolment. Provision the keys FIRST, confirm
    /// in the log that each terminal authenticates successfully, and only then turn this on.
    pub authentication_required: bool,
    /// Enable TETRA air-interface encryption (AIE) using TEA2 with a cell-wide Static Cipher Key
    /// — a security class 2 setup (ETSI EN 300 392-7 clause 6). OFF by default.
    ///
    /// EXPERIMENTAL / NOT INTEROPERABLE: the TB5 key-modification step (raw SCK + public network
    /// information -> the ECK actually fed to TEA2) is NOT implemented, so `sck` is used directly
    /// as the ECK. A compliant radio derives a different ECK from the same SCK and will therefore
    /// produce garbage in both directions. Only enable this for BS-to-BS testing against another
    /// FlowStation build carrying this same code — not on a cell serving real terminals.
    pub encryption_enabled: bool,
    /// Cell-wide Static Cipher Key (80 bits), used only when [`Self::encryption_enabled`] is set.
    /// Same plaintext-in-config caveat as `issi_keys` applies.
    pub sck: Option<[u8; 10]>,
}

impl Default for CfgSecurity {
    fn default() -> (cfg: Self)
        ensures
            cfg.issi_whitelist@ == Seq::<u32>::empty(),
            cfg.whitelist_mode is Auto,
            cfg.honour_unauthenticated_detach,
            cfg.max_registered_clients == DEFAULT_MAX_REGISTERED_CLIENTS,
            cfg.registration_rate_limit_per_min == DEFAULT_REGISTRATION_RATE_LIMIT_PER_MIN,
            !cfg.authentication_enabled,
            cfg.issi_keys@ == Map::<u32, [u8; 16]>::empty(),
            !cfg.authentication_required,
            !cfg.encryption_enabled,
            cfg.sck is None,
    {
        CfgSecurity {
            issi_whitelist: Vec::new(),
            whitelist_mode: WhitelistMode::Auto,
            honour_unauthenticated_detach: true,
            max_registered_clients: DEFAULT_MAX_REGISTERED_CLIENTS,
            registration_rate_limit_per_min: DEFAULT_REGISTRATION_RATE_LIMIT_PER_MIN,
            authentication_enabled: false,
            issi_keys: HashMap::new(),
            authentication_required: false,
            encryption_enabled: false,
            sck: None,
        }
    }
}

/// Whether a list lets an ISSI in under a mode.
pub open spec fn lets_in(mode: WhitelistMode, list: Seq<u32>, issi: u32) -> bool {
    match mode {
        WhitelistMode::Open => true,
        WhitelistMode::Auto => list.len() == 0 || list.contains(issi),
        WhitelistMode::Enforce => list.contains(issi),
    }
}

/// The posture of `n` listed ISSIs under a mode, in words.
pub open spec fn posture(mode: WhitelistMode, n: nat) -> Seq<char> {
    match mode {
        WhitelistMode::Open => "OPEN — access control disabled (whitelist_mode = \"open\")"@,
        WhitelistMode::Auto => if n == 0 {
            "OPEN — no issi_whitelist configured; ANY ISSI may register (set whitelist_mode = \"enforce\" to lock down)"@
        } else {
            "ALLOW-LIST — "@ + text::decimal(n) + " ISSI(s) may register"@
        },
        WhitelistMode::Enforce => if n == 0 {
            "DENY-ALL — whitelist_mode = \"enforce\" with an empty issi_whitelist"@
        } else {
            "ALLOW-LIST (enforced) — "@ + text::decimal(n) + " ISSI(s) may register"@
        },
    }
}

/// Whether a list holds an ISSI.
fn holds(list: &[u32], issi: u32) -> (found: bool)
    ensures
        found == list@.contains(issi),
{
    let mut i: usize = 0;
    while i < list.len()
        invariant
            i <= list@.len(),
            forall|j: int| 0 <= j < i ==> list@[j] != issi,
        decreases list@.len() - i,
    {
        if list[i] == issi {
            return true;
        }
        i = i + 1;
    }
    false
}

impl CfgSecurity {
    /// Returns true if the given ISSI is allowed to register.
    pub fn is_issi_allowed(&self, issi: u32) -> (allowed: bool)
        ensures
            allowed == lets_in(self.whitelist_mode, self.issi_whitelist@, issi),
    {
        self.allows(issi, None)
    }

    /// Whitelist decision honouring an optional runtime (dashboard) override list, which replaces
    /// the configured list. The mode applies to whichever list is effective, so an operator who
    /// clears the list from the dashboard under `enforce` gets deny-all, not an open cell.
    pub fn allows(&self, issi: u32, override_list: Option<&[u32]>) -> (allowed: bool)
        ensures
            allowed == lets_in(
                self.whitelist_mode,
                match override_list {
                    Some(list) => list@,
                    None => self.issi_whitelist@,
                },
                issi,
            ),
    {
        let list: &[u32] = match override_list {
            Some(list) => list,
            None => self.issi_whitelist.as_slice(),
        };
        match self.whitelist_mode {
            WhitelistMode::Open => true,
            WhitelistMode::Auto => list.len() == 0 || holds(list, issi),
            WhitelistMode::Enforce => holds(list, issi),
        }
    }

    /// One-line description of the effective access-control posture, for the startup log. The
    /// whole point is that an operator can read the cell's real posture out of the log rather
    /// than inferring it from an empty TOML array.
    pub fn access_control_posture(&self) -> (line: String)
        ensures
            line@ == posture(self.whitelist_mode, self.issi_whitelist@.len()),
    {
        let n: usize = self.issi_whitelist.len();
        match self.whitelist_mode {
            WhitelistMode::Open => String::from_str(
                "OPEN — access control disabled (whitelist_mode = \"open\")",
            ),
            WhitelistMode::Auto => if n == 0 {
                String::from_str(
                    "OPEN — no issi_whitelist configured; ANY ISSI may register (set whitelist_mode = \"enforce\" to lock down)",
                )
            } else {
                let mut line = String::from_str("ALLOW-LIST — ");
                text::push_decimal(&mut line, n as u128);
                line.append(" ISSI(s) may register");
                line
            },
            WhitelistMode::Enforce => if n == 0 {
                String::from_str(
                    "DENY-ALL — whitelist_mode = \"enforce\" with an empty issi_whitelist",
                )
            } else {
                let mut line = String::from_str("ALLOW-LIST (enforced) — ");
                text::push_decimal(&mut line, n as u128);
                line.append(" ISSI(s) may register");
                line
            },
        }
    }
}

/// The `[security]` table as it is read. What is missing is `None` or empty.
#[derive(Debug, Clone)]
pub struct CfgSecurityDto {
    pub issi_whitelist: Vec<u32>,
    pub whitelist_mode: Option<String>,
    pub honour_unauthenticated_detach: Option<bool>,
    pub max_registered_clients: Option<usize>,
    pub registration_rate_limit_per_min: Option<u32>,
    pub authentication_enabled: Option<bool>,
    /// `{ issi = "hex32chars" }`, e.g. `issi_keys = { 2260571 = "0123456789abcdef0123456789abcdef" }`.
    /// NOTE: the map key comes in as a string here (TOML table/inline-table keys are always text
    /// in the data model, quoted or not) — the ISSI itself is parsed to u32 in `parse_issi_keys`.
    pub issi_keys: HashMap<String, String>,
    pub authentication_required: Option<bool>,
    pub encryption_enabled: Option<bool>,
    /// 20 hex characters (80-bit SCK), e.g. `sck = "00112233445566778899"`.
    pub sck: Option<String>,
}

impl Default for CfgSecurityDto {
    fn default() -> (dto: Self)
        ensures
            dto.issi_whitelist@ == Seq::<u32>::empty(),
            dto.whitelist_mode is None,
            dto.honour_unauthenticated_detach is None,
            dto.max_registered_clients is None,
            dto.registration_rate_limit_per_min is None,
            dto.authentication_enabled is None,
            dto.issi_keys@ == Map::<String, String>::empty(),
            dto.authentication_required is None,
            dto.encryption_enabled is None,
            dto.sck is None,
    {
        CfgSecurityDto {
            issi_whitelist: Vec::new(),
            whitelist_mode: None,
            honour_unauthenticated_detach: None,
            max_registered_clients: None,
            registration_rate_limit_per_min: None,
            authentication_enabled: None,
            issi_keys: HashMap::new(),
            authentication_required: None,
            encryption_enabled: None,
            sck: None,
        }
    }
}

/// The key of `n` bytes that a text stands for: exactly `2 * n` hexadecimal digits, with white
/// space around them or not.
pub open spec fn key_of(text: Seq<char>, n: nat) -> Option<Seq<u8>> {
    let digits = text::trimmed(text);
    if digits.len() == 2 * n && text::is_hex(digits) {
        Some(Seq::new(n, |i: int| text::hex_byte(digits[2 * i], digits[2 * i + 1])))
    } else {
        None
    }
}

/// Decode exactly `N` bytes from a hex string, or `None` if the length or characters are wrong.
fn parse_hex_key<const N: usize>(hex: &str) -> (key: Option<[u8; N]>)
    requires
        2 * N <= usize::MAX,
    ensures
        match key {
            Some(k) => key_of(hex@, N as nat) == Some(k@),
            None => key_of(hex@, N as nat) is None,
        },
{
    let digits: Vec<char> = text::trim(hex);
    if digits.len() != N * 2 {
        return None;
    }
    let mut out: [u8; N] = [0u8; N];
    let mut i: usize = 0;
    while i < N
        invariant
            i <= N,
            2 * N <= usize::MAX,
            digits@ == text::trimmed(hex@),
            digits@.len() == 2 * N,
            forall|j: int| 0 <= j < 2 * i ==> text::hex_value(#[trigger] digits@[j]) is Some,
            forall|j: int|
                0 <= j < i ==> #[trigger] out@[j] == text::hex_byte(digits@[2 * j], digits@[2 * j + 1]),
        decreases N - i,
    {
        let high: u8 = match text::hex_digit(digits[2 * i]) {
            Some(v) => v,
            None => return None,
        };
        let low: u8 = match text::hex_digit(digits[2 * i + 1]) {
            Some(v) => v,
            None => return None,
        };
        out[i] = 16 * high + low;
        i = i + 1;
    }
    assert(out@ =~= Seq::new(
        N as nat,
        |j: int| text::hex_byte(digits@[2 * j], digits@[2 * j + 1]),
    ));
    Some(out)
}

/// A key of 10 bytes, or none.
pub open spec fn is_key(key: Option<[u8; 10]>, expected: Option<Seq<u8>>) -> bool {
    match key {
        Some(k) => expected == Some(k@),
        None => expected is None,
    }
}

/// The cell-wide SCK that a text stands for.
pub open spec fn sck_of(raw: Option<String>) -> Option<Seq<u8>> {
    match raw {
        Some(text) => key_of(text@, 10),
        None => None,
    }
}

/// Parse the cell-wide SCK. Returns None on a malformed value rather than failing the
/// whole config load — a bad key leaves encryption off, it never falls back to a zero key.
pub fn parse_sck(raw: Option<String>) -> (key: Option<[u8; 10]>)
    ensures
        is_key(key, sck_of(raw)),
{
    match raw {
        Some(text) => parse_hex_key::<10>(text.as_str()),
        None => None,
    }
}

/// `entries` are the entries of `raw`, each of them once, in whatever order.
pub open spec fn lists(entries: Seq<(String, String)>, raw: Map<String, String>) -> bool {
    &&& forall|i: int|
        0 <= i < entries.len() ==> raw.contains_pair((#[trigger] entries[i]).0, entries[i].1)
    &&& forall|key: String| #[trigger]
        raw.contains_key(key) ==> exists|i: int|
            0 <= i < entries.len() && (#[trigger] entries[i]).0 == key
    &&& forall|i: int, j: int|
        0 <= i < j < entries.len() ==> (#[trigger] entries[i]).0@ != (#[trigger] entries[j]).0@
}

/// `Vec::from_iter` of the standard library on a `HashMap`: it takes over every entry of the map,
/// each of them once. Nothing is said of their order.
#[verifier::external_body]
fn entries_of(raw: HashMap<String, String>) -> (entries: Vec<(String, String)>)
    ensures
        lists(entries@, raw@),
{
    Vec::from_iter(raw)
}

/// The keys that a list of entries provides: of each entry an ISSI and its K. An entry that does
/// not hold both is passed over; of entries for the same ISSI the last one counts.
pub open spec fn keys_of(entries: Seq<(String, String)>) -> Map<u32, Seq<u8>>
    decreases entries.len(),
{
    if entries.len() == 0 {
        Map::empty()
    } else {
        let before = keys_of(entries.drop_last());
        let (issi, hex) = entries.last();
        match (text::number_of(text::trimmed(issi@)), key_of(hex@, 16)) {
            (Some(n), Some(key)) => before.insert(n, key),
            _ => before,
        }
    }
}

/// `keys` holds what `expected` says.
pub open spec fn provides(keys: Map<u32, [u8; 16]>, expected: Map<u32, Seq<u8>>) -> bool {
    &&& keys.dom() == expected.dom()
    &&& forall|issi: u32| #[trigger] keys.contains_key(issi) ==> keys[issi]@ == expected[issi]
}

/// Read the keys of a list of entries, in its order.
pub fn parse_issi_entries(entries: &Vec<(String, String)>) -> (keys: HashMap<u32, [u8; 16]>)
    ensures
        provides(keys@, keys_of(entries@)),
{
    broadcast use vstd::std_specs::hash::group_hash_axioms;

    let mut out: HashMap<u32, [u8; 16]> = HashMap::with_capacity(entries.len());
    let mut i: usize = 0;
    while i < entries.len()
        invariant
            i <= entries@.len(),
            provides(out@, keys_of(entries@.take(i as int))),
        decreases entries@.len() - i,
    {
        let (issi_text, hex): (&String, &String) = (&entries[i].0, &entries[i].1);
        proof {
            assert(entries@.take(i + 1).drop_last() =~= entries@.take(i as int));
        }
        if let Some(issi) = text::parse_u32(&text::trim(issi_text.as_str())) {
            if let Some(k) = parse_hex_key::<16>(hex.as_str()) {
                out.insert(issi, k);
            }
        }
        assert(out@.dom() =~= keys_of(entries@.take(i + 1)).dom());
        i = i + 1;
    }
    assert(entries@.take(i as int) =~= entries@);
    out
}

/// Parse a 32-hex-character K into 16 bytes, and its ISSI key (a string, per TOML's data model —
/// see the note on `CfgSecurityDto::issi_keys`) into a u32. Skips (rather than failing
/// config load entirely) a malformed entry, so one typo doesn't lock the operator out of an
/// otherwise valid config via the fallback-config mechanism.
pub fn parse_issi_keys(raw: HashMap<String, String>) -> (keys: HashMap<u32, [u8; 16]>)
    ensures
        exists|entries: Seq<(String, String)>| #[trigger]
            lists(entries, raw@) && provides(keys@, keys_of(entries)),
{
    let entries: Vec<(String, String)> = entries_of(raw);
    parse_issi_entries(&entries)
}

/// A mode that is not given, or not known, is `Auto`.
pub open spec fn configured_mode(text: Option<String>) -> WhitelistMode {
    match text {
        Some(t) => match mode_of(t@) {
            Some(mode) => mode,
            None => WhitelistMode::Auto,
        },
        None => WhitelistMode::Auto,
    }
}

pub fn apply_security_patch(dto: CfgSecurityDto) -> (cfg: CfgSecurity)
    ensures
        cfg.issi_whitelist == dto.issi_whitelist,
        cfg.whitelist_mode == configured_mode(dto.whitelist_mode),
        cfg.honour_unauthenticated_detach == (dto.honour_unauthenticated_detach != Some(false)),
        cfg.max_registered_clients == (match dto.max_registered_clients {
            Some(n) => n,
            None => DEFAULT_MAX_REGISTERED_CLIENTS,
        }),
        cfg.registration_rate_limit_per_min == (match dto.registration_rate_limit_per_min {
            Some(n) => n,
            None => DEFAULT_REGISTRATION_RATE_LIMIT_PER_MIN,
        }),
        cfg.authentication_enabled == (dto.authentication_enabled == Some(true)),
        exists|entries: Seq<(String, String)>| #[trigger]
            lists(entries, dto.issi_keys@) && provides(cfg.issi_keys@, keys_of(entries)),
        cfg.authentication_required == (dto.authentication_required == Some(true)),
        cfg.encryption_enabled == (dto.encryption_enabled == Some(true)),
        is_key(cfg.sck, sck_of(dto.sck)),
{
    let defaults = CfgSecurity::default();
    // An unrecognised mode falls back to "auto"; the effective posture is logged at startup
    // (see access_control_posture) so a typo can't silently pass for a lockdown.
    let whitelist_mode = match &dto.whitelist_mode {
        Some(s) => match WhitelistMode::parse(s.as_str()) {
            Some(mode) => mode,
            None => WhitelistMode::Auto,
        },
        None => WhitelistMode::Auto,
    };
    CfgSecurity {
        issi_whitelist: dto.issi_whitelist,
        whitelist_mode,
        honour_unauthenticated_detach: dto.honour_unauthenticated_detach.unwrap_or(
            defaults.honour_unauthenticated_detach,
        ),
        max_registered_clients: dto.max_registered_clients.unwrap_or(
            defaults.max_registered_clients,
        ),
        registration_rate_limit_per_min: dto.registration_rate_limit_per_min.unwrap_or(
            defaults.registration_rate_limit_per_min,
        ),
        authentication_enabled: dto.authentication_enabled.unwrap_or(
            defaults.authentication_enabled,
        ),
        issi_keys: parse_issi_keys(dto.issi_keys),
        authentication_required: dto.authentication_required.unwrap_or(
            defaults.authentication_required,
        ),
        encryption_enabled: dto.encryption_enabled.unwrap_or(defaults.encryption_enabled),
        sck: parse_sck(dto.sck),
    }
}

/// An empty list is an open cell under `Auto` and a closed one under `Enforce`; `Open` does not
/// look at the list; and a list that is not empty means the same under `Auto` and `Enforce`.
pub proof fn law_empty_list_depends_on_the_mode(list: Seq<u32>, issi: u32)
    ensures
        lets_in(WhitelistMode::Open, list, issi),
        list.len() == 0 ==> lets_in(WhitelistMode::Auto, list, issi) && !lets_in(
            WhitelistMode::Enforce,
            list,
            issi,
        ),
        list.len() > 0 ==> lets_in(WhitelistMode::Auto, list, issi) == lets_in(
            WhitelistMode::Enforce,
            list,
            issi,
        ),
{
}

/// An entry that is malformed changes nothing: the other entries provide the same keys with it as
/// without it.
pub proof fn law_malformed_entries_are_passed_over(
    before: Seq<(String, String)>,
    entry: (String, String),
    after: Seq<(String, String)>,
)
    requires
        text::number_of(text::trimmed(entry.0@)) is None || key_of(entry.1@, 16) is None,
    ensures
        keys_of(before.push(entry) + after) == keys_of(before + after),
    decreases after.len(),
{
    if after.len() == 0 {
        assert(before.push(entry) + after =~= before.push(entry));
        assert(before + after =~= before);
        assert(before.push(entry).drop_last() =~= before);
    } else {
        law_malformed_entries_are_passed_over(before, entry, after.drop_last());
        assert((before.push(entry) + after).drop_last() =~= before.push(entry) + after.drop_last());
        assert((before + after).drop_last() =~= before + after.drop_last());
    }
}

/// Every key that is provided stands in an entry, and is a K of 16 bytes.
pub proof fn law_keys_come_from_entries(entries: Seq<(String, String)>, issi: u32)
    ensures
        keys_of(entries).contains_key(issi) ==> exists|i: int|
            0 <= i < entries.len() && text::number_of(text::trimmed((#[trigger] entries[i]).0@))
                == Some(issi) && key_of(entries[i].1@, 16) == Some(keys_of(entries)[issi]),
    decreases entries.len(),
{
    if entries.len() > 0 {
        let front = entries.drop_last();
        law_keys_come_from_entries(front, issi);
        assert(entries.last() == entries[entries.len() - 1]);
        if keys_of(front).contains_key(issi) {
            let i = choose|i: int|
                0 <= i < front.len() && text::number_of(text::trimmed((#[trigger] front[i]).0@))
                    == Some(issi) && key_of(front[i].1@, 16) == Some(keys_of(front)[issi]);
            assert(entries[i] == front[i]);
        }
    }
}

/// Where no two entries are for the same ISSI, their order does not matter: the keys provided are
/// exactly those of the well-formed entries.
pub proof fn law_distinct_entries_in_any_order(entries: Seq<(String, String)>, i: int)
    requires
        0 <= i < entries.len(),
        text::number_of(text::trimmed(entries[i].0@)) is Some,
        key_of(entries[i].1@, 16) is Some,
        forall|j: int|
            0 <= j < entries.len() && j != i ==> text::number_of(
                text::trimmed((#[trigger] entries[j]).0@),
            ) != text::number_of(text::trimmed(entries[i].0@)),
    ensures
        ({
            let issi = text::number_of(text::trimmed(entries[i].0@)).unwrap();
            &&& keys_of(entries).contains_key(issi)
            &&& keys_of(entries)[issi] == key_of(entries[i].1@, 16).unwrap()
        }),
    decreases entries.len(),
{
    let front = entries.drop_last();
    if i < front.len() {
        assert(front[i] == entries[i]);
        assert forall|j: int| 0 <= j < front.len() && j != i implies text::number_of(
            text::trimmed((#[trigger] front[j]).0@),
        ) != text::number_of(text::trimmed(front[i].0@)) by {
            assert(front[j] == entries[j]);
        }
        law_distinct_entries_in_any_order(front, i);
        assert(entries.last() == entries[entries.len() - 1]);
    }
}

/// Who may register. With access control off everybody may. With a list that counts, an ISSI may
/// that stands at some place of it, and no other one; the list that counts is the override where
/// there is one, and the configured one otherwise. An empty list lets everybody in under `Auto`,
/// and nobody under `Enforce`.
pub proof fn law_who_may_register(
    cfg: CfgSecurity,
    issi: u32,
    override_list: Option<&[u32]>,
    list: Seq<u32>,
    r: bool,
)
    requires
        call_ensures(CfgSecurity::allows, (&cfg, issi, override_list), r),
        override_list matches Some(instead) ==> list == instead@,
        override_list is None ==> list == cfg.issi_whitelist@,
    ensures
        cfg.whitelist_mode is Open ==> r,
        cfg.whitelist_mode is Auto && list.len() == 0 ==> r,
        forall|i: int| 0 <= i < list.len() && #[trigger] list[i] == issi ==> r,
        cfg.whitelist_mode is Enforce && (forall|i: int|
            0 <= i < list.len() ==> #[trigger] list[i] != issi) ==> !r,
        cfg.whitelist_mode is Auto && list.len() > 0 && (forall|i: int|
            0 <= i < list.len() ==> #[trigger] list[i] != issi) ==> !r,
{
    assert(r == lets_in(cfg.whitelist_mode, list, issi));
}

/// Without an override the configured list counts.
pub proof fn law_who_may_register_without_an_override(cfg: CfgSecurity, issi: u32, r: bool)
    requires
        call_ensures(CfgSecurity::is_issi_allowed, (&cfg, issi), r),
    ensures
        ({
            let list = cfg.issi_whitelist@;
            &&& cfg.whitelist_mode is Open ==> r
            &&& cfg.whitelist_mode is Auto && list.len() == 0 ==> r
            &&& forall|i: int| 0 <= i < list.len() && #[trigger] list[i] == issi ==> r
            &&& cfg.whitelist_mode is Enforce && (forall|i: int|
                0 <= i < list.len() ==> #[trigger] list[i] != issi) ==> !r
            &&& cfg.whitelist_mode is Auto && list.len() > 0 && (forall|i: int|
                0 <= i < list.len() ==> #[trigger] list[i] != issi) ==> !r
        }),
{
}

/// The posture that is logged is the one that is in force: open where everybody may register,
/// closed where nobody may, and otherwise how many may.
pub proof fn law_the_posture_is_what_is_in_force(cfg: CfgSecurity, line: String)
    requires
        call_ensures(CfgSecurity::access_control_posture, (&cfg,), line),
    ensures
        ({
            let n = cfg.issi_whitelist@.len();
            &&& cfg.whitelist_mode is Open ==> line@
                == "OPEN — access control disabled (whitelist_mode = \"open\")"@
            &&& cfg.whitelist_mode is Auto && n == 0 ==> line@
                == "OPEN — no issi_whitelist configured; ANY ISSI may register (set whitelist_mode = \"enforce\" to lock down)"@
            &&& cfg.whitelist_mode is Auto && n > 0 ==> line@ == "ALLOW-LIST — "@ + text::decimal(n)
                + " ISSI(s) may register"@
            &&& cfg.whitelist_mode is Enforce && n == 0 ==> line@
                == "DENY-ALL — whitelist_mode = \"enforce\" with an empty issi_whitelist"@
            &&& cfg.whitelist_mode is Enforce && n > 0 ==> line@ == "ALLOW-LIST (enforced) — "@
                + text::decimal(n) + " ISSI(s) may register"@
        }),
{
}

/// The words that name a mode, in capitals or not, and that no other word names one.
pub proof fn law_modes_are_named_by_their_words(s: &str, r: Option<WhitelistMode>)
    requires
        call_ensures(WhitelistMode::parse, (s,), r),
    ensures
        ({
            let word = text::lower(text::trimmed(s@));
            &&& r == Some(WhitelistMode::Auto) <==> word == "auto"@
            &&& r == Some(WhitelistMode::Open) <==> word == "open"@ || word == "off"@ || word
                == "disabled"@
            &&& r == Some(WhitelistMode::Enforce) <==> word == "enforce"@ || word == "strict"@
        }),
{
    reveal_strlit("auto");
    reveal_strlit("open");
    reveal_strlit("off");
    reveal_strlit("disabled");
    reveal_strlit("enforce");
    reveal_strlit("strict");
    let word = text::lower(text::trimmed(s@));
    assert("auto"@[0] != "open"@[0] && "auto"@[0] != "disabled"@[0] && "auto"@[0] != "enforce"@[0]
        && "auto"@[0] != "strict"@[0]);
    assert("enforce"@[0] != "open"@[0] && "enforce"@[0] != "disabled"@[0]);
    assert("strict"@[0] != "open"@[0] && "strict"@[0] != "disabled"@[0]);
}

/// A text stands for a key exactly where it spells its bytes: two hexadecimal digits for each, the
/// high one first, and nothing else but white space around them.
pub proof fn law_keys_are_spelled_in_hex(text: Seq<char>, n: nat, key: Seq<u8>)
    ensures
        key_of(text, n) == Some(key) <==> {
            let digits = text::trimmed(text);
            &&& digits.len() == 2 * n
            &&& key.len() == n
            &&& forall|i: int|
                0 <= i < n ==> text::hex_value(digits[2 * i]) == Some(
                    (#[trigger] key[i] / 16) as u8,
                ) && text::hex_value(digits[2 * i + 1]) == Some((key[i] % 16) as u8)
        },
{
    let digits = text::trimmed(text);
    let spelled = {
        &&& digits.len() == 2 * n
        &&& key.len() == n
        &&& forall|i: int|
            0 <= i < n ==> text::hex_value(digits[2 * i]) == Some((#[trigger] key[i] / 16) as u8)
                && text::hex_value(digits[2 * i + 1]) == Some((key[i] % 16) as u8)
    };
    if key_of(text, n) == Some(key) {
        assert forall|i: int| 0 <= i < n implies text::hex_value(digits[2 * i]) == Some(
            (#[trigger] key[i] / 16) as u8,
        ) && text::hex_value(digits[2 * i + 1]) == Some((key[i] % 16) as u8) by {
            assert(text::hex_value(digits[2 * i]) is Some);
            assert(text::hex_value(digits[2 * i + 1]) is Some);
            text::law_hex_bytes_have_two_halves(digits[2 * i], digits[2 * i + 1]);
        }
    }
    if spelled {
        assert forall|j: int| 0 <= j < digits.len() implies text::hex_value(
            #[trigger] digits[j],
        ) is Some by {
            let b = key[j / 2];
            assert(j == 2 * (j / 2) || j == 2 * (j / 2) + 1);
        }
        let read = Seq::new(n, |i: int| text::hex_byte(digits[2 * i], digits[2 * i + 1]));
        assert forall|i: int| 0 <= i < n implies read[i] == key[i] by {
            let b = key[i];
            assert(text::hex_value(digits[2 * i]) == Some((b / 16) as u8));
        }
        assert(read =~= key);
    }
}

/// The cell-wide key is the one of ten bytes that the text spells; where it spells none, or there
/// is no text, there is no key.
pub proof fn law_a_bad_sck_is_no_key(raw: Option<String>, r: Option<[u8; 10]>)
    requires
        call_ensures(parse_sck, (raw,), r),
    ensures
        raw is None ==> r is None,
        raw matches Some(text) ==> match r {
            Some(k) => key_of(text@, 10) == Some(k@),
            None => forall|k: Seq<u8>| key_of(text@, 10) != Some(k),
        },
{
}

/// An entry that gives a K to an ISSI: its name is the ISSI's number, and its text spells a key of
/// 16 bytes.
pub open spec fn provided_by(entry: (String, String), issi: u32, key: Seq<u8>) -> bool {
    text::number_of(text::trimmed(entry.0@)) == Some(issi) && key_of(entry.1@, 16) == Some(key)
}

/// Of the entries that give a K to an ISSI, the last one counts, and an ISSI that none of them is
/// for has no K.
pub proof fn law_the_last_entry_counts(entries: Seq<(String, String)>, issi: u32, key: Seq<u8>)
    ensures
        keys_of(entries).contains_key(issi) && keys_of(entries)[issi] == key <==> exists|i: int|
            {
                &&& 0 <= i < entries.len()
                &&& provided_by(#[trigger] entries[i], issi, key)
                &&& forall|j: int, other: Seq<u8>|
                    i < j < entries.len() ==> !(#[trigger] provided_by(entries[j], issi, other))
            },
    decreases entries.len(),
{
    if entries.len() > 0 {
        let front = entries.drop_last();
        let n = front.len() as int;
        let (name, hex) = entries.last();
        law_the_last_entry_counts(front, issi, key);
        let here = text::number_of(text::trimmed(name@)) == Some(issi) && key_of(hex@, 16) is Some;
        assert(entries[n] == entries.last());
        if keys_of(entries).contains_key(issi) && keys_of(entries)[issi] == key {
            if here {
                assert(provided_by(entries[n], issi, key));
            } else {
                let i = choose|i: int|
                    {
                        &&& 0 <= i < front.len()
                        &&& provided_by(#[trigger] front[i], issi, key)
                        &&& forall|j: int, other: Seq<u8>|
                            i < j < front.len() ==> !(#[trigger] provided_by(front[j], issi, other))
                    };
                assert(provided_by(entries[i], issi, key));
                assert forall|j: int, other: Seq<u8>| i < j < entries.len() implies !(
                #[trigger] provided_by(entries[j], issi, other)) by {
                    if j < n {
                        assert(entries[j] == front[j]);
                        assert(!provided_by(front[j], issi, other));
                    }
                }
            }
        }
        if exists|i: int|
            {
                &&& 0 <= i < entries.len()
                &&& provided_by(#[trigger] entries[i], issi, key)
                &&& forall|j: int, other: Seq<u8>|
                    i < j < entries.len() ==> !(#[trigger] provided_by(entries[j], issi, other))
            } {
            let i = choose|i: int|
                {
                    &&& 0 <= i < entries.len()
                    &&& provided_by(#[trigger] entries[i], issi, key)
                    &&& forall|j: int, other: Seq<u8>|
                        i < j < entries.len() ==> !(#[trigger] provided_by(
                            entries[j],
                            issi,
                            other,
                        ))
                };
            if i < n {
                assert(!here) by {
                    if here {
                        assert(provided_by(entries[n], issi, key_of(hex@, 16).unwrap()));
                    }
                }
                assert(provided_by(front[i], issi, key));
                assert forall|j: int, other: Seq<u8>| i < j < front.len() implies !(
                #[trigger] provided_by(front[j], issi, other)) by {
                    assert(!provided_by(entries[j], issi, other));
                }
            }
        }
    }
}

/// The keys that are read from a list of entries are those that its entries give, the last one for
/// each ISSI.
pub proof fn law_keys_are_read_from_their_entries(
    entries: Vec<(String, String)>,
    keys: HashMap<u32, [u8; 16]>,
    issi: u32,
    key: Seq<u8>,
)
    requires
        call_ensures(parse_issi_entries, (&entries,), keys),
    ensures
        keys@.contains_key(issi) && keys@[issi]@ == key <==> exists|i: int|
            {
                &&& 0 <= i < entries@.len()
                &&& provided_by(#[trigger] entries@[i], issi, key)
                &&& forall|j: int, other: Seq<u8>|
                    i < j < entries@.len() ==> !(#[trigger] provided_by(entries@[j], issi, other))
            },
{
    law_the_last_entry_counts(entries@, issi, key);
}

/// The keys that are read from a table are those that its entries give: an ISSI has a K exactly
/// where some entry gives it one, and it is the one that such an entry gives.
pub proof fn law_keys_are_read_from_their_table(
    raw: HashMap<String, String>,
    keys: HashMap<u32, [u8; 16]>,
    issi: u32,
)
    requires
        call_ensures(parse_issi_keys, (raw,), keys),
    ensures
        keys@.contains_key(issi) ==> exists|name: String|
            {
                &&& #[trigger] raw@.contains_key(name)
                &&& provided_by((name, raw@[name]), issi, keys@[issi]@)
            },
        forall|name: String, key: Seq<u8>|
            raw@.contains_key(name) && #[trigger] provided_by((name, raw@[name]), issi, key)
                ==> keys@.contains_key(issi),
{
    let entries = choose|entries: Seq<(String, String)>| #[trigger]
        lists(entries, raw@) && provides(keys@, keys_of(entries));
    lemma_table_entries(entries, raw@, keys@, issi);
}

proof fn lemma_table_entries(
    entries: Seq<(String, String)>,
    raw: Map<String, String>,
    keys: Map<u32, [u8; 16]>,
    issi: u32,
)
    requires
        lists(entries, raw),
        provides(keys, keys_of(entries)),
    ensures
        keys.contains_key(issi) ==> exists|name: String|
            {
                &&& #[trigger] raw.contains_key(name)
                &&& provided_by((name, raw[name]), issi, keys[issi]@)
            },
        forall|name: String, key: Seq<u8>|
            raw.contains_key(name) && #[trigger] provided_by((name, raw[name]), issi, key)
                ==> keys.contains_key(issi),
{
    if keys.contains_key(issi) {
        law_keys_come_from_entries(entries, issi);
        let i = choose|i: int|
            0 <= i < entries.len() && text::number_of(text::trimmed((#[trigger] entries[i]).0@))
                == Some(issi) && key_of(entries[i].1@, 16) == Some(keys_of(entries)[issi]);
        let name = entries[i].0;
        assert(raw.contains_pair(entries[i].0, entries[i].1));
        assert(raw.contains_key(name));
        assert(provided_by((name, raw[name]), issi, keys[issi]@));
    }
    assert forall|name: String, key: Seq<u8>|
        raw.contains_key(name) && #[trigger] provided_by(
            (name, raw[name]),
            issi,
            key,
        ) implies keys.contains_key(issi) by {
        let i = choose|i: int| 0 <= i < entries.len() && (#[trigger] entries[i]).0 == name;
        assert(raw.contains_pair(entries[i].0, entries[i].1));
        lemma_key_is_kept(entries, i, issi, key);
    }
}

/// An ISSI that an entry gives a K to has one.
proof fn lemma_key_is_kept(entries: Seq<(String, String)>, i: int, issi: u32, key: Seq<u8>)
    requires
        0 <= i < entries.len(),
        provided_by(entries[i], issi, key),
    ensures
        keys_of(entries).contains_key(issi),
    decreases entries.len(),
{
    let front = entries.drop_last();
    assert(entries.last() == entries[entries.len() - 1]);
    if i < front.len() {
        assert(front[i] == entries[i]);
        lemma_key_is_kept(front, i, issi, key);
    }
}

/// What the `[security]` table says is what is in force, and what it does not say is as without
/// it: open to everybody by an empty list, detaches honoured, 2048 clients, 30 registrations a
/// minute, and neither authentication nor encryption.
pub proof fn law_the_table_is_in_force(dto: CfgSecurityDto, cfg: CfgSecurity)
    requires
        call_ensures(apply_security_patch, (dto,), cfg),
    ensures
        cfg.issi_whitelist@ == dto.issi_whitelist@,
        dto.whitelist_mode is None ==> cfg.whitelist_mode is Auto,
        dto.whitelist_mode matches Some(t) ==> match mode_of(t@) {
            Some(mode) => cfg.whitelist_mode == mode,
            None => cfg.whitelist_mode is Auto,
        },
        dto.honour_unauthenticated_detach is None ==> cfg.honour_unauthenticated_detach,
        dto.honour_unauthenticated_detach matches Some(v) ==> cfg.honour_unauthenticated_detach == v,
        dto.max_registered_clients is None ==> cfg.max_registered_clients == 2048,
        dto.max_registered_clients matches Some(v) ==> cfg.max_registered_clients == v,
        dto.registration_rate_limit_per_min is None ==> cfg.registration_rate_limit_per_min == 30,
        dto.registration_rate_limit_per_min matches Some(v) ==> cfg.registration_rate_limit_per_min
            == v,
        dto.authentication_enabled is None ==> !cfg.authentication_enabled,
        dto.authentication_enabled matches Some(v) ==> cfg.authentication_enabled == v,
        dto.authentication_required is None ==> !cfg.authentication_required,
        dto.authentication_required matches Some(v) ==> cfg.authentication_required == v,
        dto.encryption_enabled is None ==> !cfg.encryption_enabled,
        dto.encryption_enabled matches Some(v) ==> cfg.encryption_enabled == v,
        dto.sck is None ==> cfg.sck is None,
        dto.sck matches Some(text) ==> match cfg.sck {
            Some(k) => key_of(text@, 10) == Some(k@),
            None => key_of(text@, 10) is None,
        },
        forall|issi: u32| #[trigger]
            cfg.issi_keys@.contains_key(issi) ==> exists|name: String|
                {
                    &&& #[trigger] dto.issi_keys@.contains_key(name)
                    &&& provided_by((name, dto.issi_keys@[name]), issi, cfg.issi_keys@[issi]@)
                },
        forall|issi: u32, name: String, key: Seq<u8>|
            dto.issi_keys@.contains_key(name) && #[trigger] provided_by(
                (name, dto.issi_keys@[name]),
                issi,
                key,
            ) ==> cfg.issi_keys@.contains_key(issi),
{
    let entries = choose|entries: Seq<(String, String)>| #[trigger]
        lists(entries, dto.issi_keys@) && provides(cfg.issi_keys@, keys_of(entries));
    assert forall|issi: u32| #[trigger] cfg.issi_keys@.contains_key(issi) implies exists|name: String|
        {
            &&& #[trigger] dto.issi_keys@.contains_key(name)
            &&& provided_by((name, dto.issi_keys@[name]), issi, cfg.issi_keys@[issi]@)
        } by {
        lemma_table_entries(entries, dto.issi_keys@, cfg.issi_keys@, issi);
    }
    assert forall|issi: u32, name: String, key: Seq<u8>|
        dto.issi_keys@.contains_key(name) && #[trigger] provided_by(
            (name, dto.issi_keys@[name]),
            issi,
            key,
        ) implies cfg.issi_keys@.contains_key(issi) by {
        lemma_table_entries(entries, dto.issi_keys@, cfg.issi_keys@, issi);
    }
}

/// Without a `[security]` table the cell is open, and nothing that has to be switched on is on.
pub proof fn law_the_default_is_an_open_cell(cfg: CfgSecurity, issi: u32)
    requires
        call_ensures(CfgSecurity::default, (), cfg),
    ensures
        lets_in(cfg.whitelist_mode, cfg.issi_whitelist@, issi),
        cfg.issi_whitelist@.len() == 0,
        cfg.whitelist_mode is Auto,
        cfg.honour_unauthenticated_detach,
        cfg.max_registered_clients == 2048,
        cfg.registration_rate_limit_per_min == 30,
        !cfg.authentication_enabled,
        !cfg.issi_keys@.contains_key(issi),
        !cfg.authentication_required,
        !cfg.encryption_enabled,
        cfg.sck is None,
{
}

/// Every configuration has an answer for every ISSI, and every table can be read.
pub proof fn law_every_table_can_be_read(
    cfg: CfgSecurity,
    issi: u32,
    override_list: Option<&[u32]>,
    dto: CfgSecurityDto,
    entries: Vec<(String, String)>,
    raw: HashMap<String, String>,
    sck: Option<String>,
    s: &str,
)
    ensures
        call_requires(CfgSecurity::allows, (&cfg, issi, override_list)),
        call_requires(CfgSecurity::is_issi_allowed, (&cfg, issi)),
        call_requires(CfgSecurity::access_control_posture, (&cfg,)),
        call_requires(apply_security_patch, (dto,)),
        call_requires(parse_issi_entries, (&entries,)),
        call_requires(parse_issi_keys, (raw,)),
        call_requires(parse_sck, (sck,)),
        call_requires(WhitelistMode::parse, (s,)),
{
}

/// A table that is empty says nothing.
pub proof fn law_an_empty_table_says_nothing(dto: CfgSecurityDto, mode: WhitelistMode, name: String)
    requires
        call_ensures(CfgSecurityDto::default, (), dto),
        call_ensures(WhitelistMode::default, (), mode),
    ensures
        dto.issi_whitelist@.len() == 0,
        dto.whitelist_mode is None,
        dto.honour_unauthenticated_detach is None,
        dto.max_registered_clients is None,
        dto.registration_rate_limit_per_min is None,
        dto.authentication_enabled is None,
        !dto.issi_keys@.contains_key(name),
        dto.authentication_required is None,
        dto.encryption_enabled is None,
        dto.sck is None,
        mode is Auto,
{
}

} // verus!
