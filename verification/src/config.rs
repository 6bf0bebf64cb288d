//! Tunable numbers of the server.
//!
//! A number that is not an integer is held as the bit pattern of its
//! single-precision value.
use crate::clock::{MILLISECOND, SECOND};
use vstd::prelude::*;

verus! {

/// The span of `n` units of `unit` nanoseconds; the longest representable span
/// where the product is longer.
pub open spec fn span_spec(n: u64, unit: u64) -> u64 {
    if n * unit > u64::MAX {
        u64::MAX
    } else {
        (n * unit) as u64
    }
}

pub fn span(n: u64, unit: u64) -> (r: u64)
    ensures
        r == span_spec(n, unit),
{
    match n.checked_mul(unit) {
        Some(r) => r,
        None => u64::MAX,
    }
}

#[derive(Debug, Clone, Copy)]
pub struct NetworkConfig {
    pub aoi_radius_yards: u32,
    pub outbound_channel_bytes: usize,
    pub aoi_flap_cooldown_secs: u64,
    pub region_size_cells: u32,
}

impl Default for NetworkConfig {
    fn default() -> (r: Self)
        ensures
            r.aoi_radius_yards == 0x4348_0000u32,
            r.outbound_channel_bytes == 1_048_576usize,
            r.aoi_flap_cooldown_secs == 3u64,
            r.region_size_cells == 4u32,
    {
        NetworkConfig {
            aoi_radius_yards: 0x4348_0000,
            outbound_channel_bytes: 1_048_576,
            aoi_flap_cooldown_secs: 3,
            region_size_cells: 4,
        }
    }
}

impl NetworkConfig {
    /// How long an entity that appeared or vanished is kept as it is.
    pub fn aoi_flap_cooldown(&self) -> (r: u64)
        ensures
            r == span_spec(self.aoi_flap_cooldown_secs, SECOND),
    {
        span(self.aoi_flap_cooldown_secs, SECOND)
    }
}

#[derive(Debug, Clone, Copy)]
pub struct TickConfig {
    pub target_interval_ms: u64,
    pub max_interval_ms: u64,
    pub slow_ema_alpha: u32,
    pub backoff_threshold: u32,
    pub recovery_hysteresis: u32,
    pub recovery_healthy_streak: u32,
    pub save_interval_secs: u64,
    pub max_promotions_per_tick: u32,
}

impl Default for TickConfig {
    fn default() -> (r: Self)
        ensures
            r == (TickConfig {
                target_interval_ms: 33,
                max_interval_ms: 1000,
                slow_ema_alpha: 0x3e4c_cccd,
                backoff_threshold: 0x3f00_0000,
                recovery_hysteresis: 0x3f19_999a,
                recovery_healthy_streak: 30,
                save_interval_secs: 60,
                max_promotions_per_tick: 20,
            }),
    {
        TickConfig {
            target_interval_ms: 33,
            max_interval_ms: 1000,
            slow_ema_alpha: 0x3e4c_cccd,
            backoff_threshold: 0x3f00_0000,
            recovery_hysteresis: 0x3f19_999a,
            recovery_healthy_streak: 30,
            save_interval_secs: 60,
            max_promotions_per_tick: 20,
        }
    }
}

impl TickConfig {
    pub fn target_interval(&self) -> (r: u64)
        ensures
            r == span_spec(self.target_interval_ms, MILLISECOND),
    {
        span(self.target_interval_ms, MILLISECOND)
    }

    pub fn max_interval(&self) -> (r: u64)
        ensures
            r == span_spec(self.max_interval_ms, MILLISECOND),
    {
        span(self.max_interval_ms, MILLISECOND)
    }

    pub fn save_interval(&self) -> (r: u64)
        ensures
            r == span_spec(self.save_interval_secs, SECOND),
    {
        span(self.save_interval_secs, SECOND)
    }
}

#[derive(Debug, Clone, Copy)]
pub struct CombatConfig {
    pub pvp_max_health: u32,
    pub attack_distance: u32,
    pub base_meleerange_offset: u32,
    pub melee_leeway: u32,
    pub player_combat_reach: u32,
    pub creature_combat_reach: u32,
}

impl Default for CombatConfig {
    fn default() -> (r: Self)
        ensures
            r == (CombatConfig {
                pvp_max_health: 100,
                attack_distance: 0x40a0_0000,
                base_meleerange_offset: 0x3faa_9fbe,
                melee_leeway: 0x402a_aaab,
                player_combat_reach: 0x3fc0_0000,
                creature_combat_reach: 0x3fc0_0000,
            }),
    {
        CombatConfig {
            pvp_max_health: 100,
            attack_distance: 0x40a0_0000,
            base_meleerange_offset: 0x3faa_9fbe,
            melee_leeway: 0x402a_aaab,
            player_combat_reach: 0x3fc0_0000,
            creature_combat_reach: 0x3fc0_0000,
        }
    }
}

#[derive(Debug, Clone, Copy)]
pub struct RespawnConfig {
    pub corpse_despawn_secs: u64,
    pub initial_respawn_delay_secs: u64,
    pub default_creature_health: u32,
}

impl Default for RespawnConfig {
    fn default() -> (r: Self)
        ensures
            r == (RespawnConfig {
                corpse_despawn_secs: 180,
                initial_respawn_delay_secs: 180,
                default_creature_health: 5000,
            }),
    {
        RespawnConfig {
            corpse_despawn_secs: 180,
            initial_respawn_delay_secs: 180,
            default_creature_health: 5000,
        }
    }
}

impl RespawnConfig {
    /// How long a corpse lies around.
    pub fn corpse_despawn(&self) -> (r: u64)
        ensures
            r == span_spec(self.corpse_despawn_secs, SECOND),
    {
        span(self.corpse_despawn_secs, SECOND)
    }

    /// How long a fresh creature stays away once its corpse is gone.
    pub fn initial_respawn_delay(&self) -> (r: u64)
        ensures
            r == span_spec(self.initial_respawn_delay_secs, SECOND),
    {
        span(self.initial_respawn_delay_secs, SECOND)
    }
}

#[derive(Debug, Clone, Copy)]
pub struct CreatureConfig {
    pub walk_speed: u32,
    pub re_path_threshold: u32,
    pub stand_off: u32,
    pub max_follow_range: u32,
    pub wander_idle_min_ms: u64,
    pub wander_idle_max_ms: u64,
    pub walking_heartbeat_ms: u128,
    pub arrival_threshold: u32,
}

impl Default for CreatureConfig {
    fn default() -> (r: Self)
        ensures
            r == (CreatureConfig {
                walk_speed: 0x4000_0000,
                re_path_threshold: 0x3f00_0000,
                stand_off: 0x4040_0000,
                max_follow_range: 0x4270_0000,
                wander_idle_min_ms: 3000,
                wander_idle_max_ms: 8000,
                walking_heartbeat_ms: 500,
                arrival_threshold: 0x3ecc_cccd,
            }),
    {
        CreatureConfig {
            walk_speed: 0x4000_0000,
            re_path_threshold: 0x3f00_0000,
            stand_off: 0x4040_0000,
            max_follow_range: 0x4270_0000,
            wander_idle_min_ms: 3000,
            wander_idle_max_ms: 8000,
            walking_heartbeat_ms: 500,
            arrival_threshold: 0x3ecc_cccd,
        }
    }
}

#[derive(Debug, Clone, Copy)]
pub struct SpawnConfig {
    pub x: u32,
    pub y: u32,
    pub z: u32,
    pub orientation: u32,
    pub map: u32,
}

impl Default for SpawnConfig {
    fn default() -> (r: Self)
        ensures
            r == (SpawnConfig { x: 0xc64e_5800, y: 0x4388_0000, z: 0x41ae_db23, orientation: 0, map: 0 }),
    {
        SpawnConfig { x: 0xc64e_5800, y: 0x4388_0000, z: 0x41ae_db23, orientation: 0, map: 0 }
    }
}

/// Everything that can be tuned.
#[derive(Debug, Clone, Copy)]
pub struct ServerConfig {
    pub network: NetworkConfig,
    pub tick: TickConfig,
    pub combat: CombatConfig,
    pub respawn: RespawnConfig,
    pub creature: CreatureConfig,
    pub spawn: SpawnConfig,
}

impl Default for ServerConfig {
    fn default() -> (r: Self)
        ensures
            call_ensures(NetworkConfig::default, (), r.network),
            call_ensures(TickConfig::default, (), r.tick),
            call_ensures(CombatConfig::default, (), r.combat),
            call_ensures(RespawnConfig::default, (), r.respawn),
            call_ensures(CreatureConfig::default, (), r.creature),
            call_ensures(SpawnConfig::default, (), r.spawn),
    {
        ServerConfig {
            network: NetworkConfig::default(),
            tick: TickConfig::default(),
            combat: CombatConfig::default(),
            respawn: RespawnConfig::default(),
            creature: CreatureConfig::default(),
            spawn: SpawnConfig::default(),
        }
    }
}

/// Where the configuration of the process is kept: it is installed once.
pub struct ConfigSlot {
    installed: Option<ServerConfig>,
    fallback: ServerConfig,
}

impl ConfigSlot {
    /// The configuration that was installed, if one was.
    pub closed spec fn installed(&self) -> Option<ServerConfig> {
        self.installed
    }

    /// The configuration that holds while none is installed.
    pub closed spec fn fallback(&self) -> ServerConfig {
        self.fallback
    }

    /// The configuration that holds.
    pub open spec fn current(&self) -> ServerConfig {
        match self.installed() {
            Some(c) => c,
            None => self.fallback(),
        }
    }

    pub fn new() -> (r: Self)
        ensures
            r.installed() is None,
            call_ensures(ServerConfig::default, (), r.fallback()),
    {
        ConfigSlot { installed: None, fallback: ServerConfig::default() }
    }

    pub fn config(&self) -> (r: &ServerConfig)
        ensures
            *r == self.current(),
    {
        match &self.installed {
            Some(c) => c,
            None => &self.fallback,
        }
    }

    /// Install `cfg` unless a configuration is installed already, and hand out
    /// the one that holds.
    pub fn install(&mut self, cfg: ServerConfig) -> (r: &ServerConfig)
        ensures
            final(self).installed() == Some(
                match old(self).installed() {
                    Some(c) => c,
                    None => cfg,
                },
            ),
            final(self).fallback() == old(self).fallback(),
            *r == final(self).current(),
    {
        if self.installed.is_none() {
            self.installed = Some(cfg);
        }
        self.config()
    }
}

/// A span of `n` units is `n` times as long as one, or as long as a span can be.
pub proof fn a_span_is_its_units(n: u64, unit: u64, r: u64)
    requires
        call_ensures(span, (n, unit), r),
    ensures
        n * unit <= u64::MAX ==> r == n * unit,
        n * unit > u64::MAX ==> r == u64::MAX,
{
}

/// Intervals are configured in milliseconds and in seconds, and hold in nanoseconds.
pub proof fn intervals_are_as_configured(
    n: &NetworkConfig,
    t: &TickConfig,
    c: &RespawnConfig,
    flap: u64,
    target: u64,
    max: u64,
    save: u64,
    despawn: u64,
    delay: u64,
)
    requires
        call_ensures(NetworkConfig::aoi_flap_cooldown, (n,), flap),
        call_ensures(TickConfig::target_interval, (t,), target),
        call_ensures(TickConfig::max_interval, (t,), max),
        call_ensures(TickConfig::save_interval, (t,), save),
        call_ensures(RespawnConfig::corpse_despawn, (c,), despawn),
        call_ensures(RespawnConfig::initial_respawn_delay, (c,), delay),
        n.aoi_flap_cooldown_secs <= 1_000_000_000,
        t.target_interval_ms <= 1_000_000_000,
        t.max_interval_ms <= 1_000_000_000,
        t.save_interval_secs <= 1_000_000_000,
        c.corpse_despawn_secs <= 1_000_000_000,
        c.initial_respawn_delay_secs <= 1_000_000_000,
    ensures
        flap == n.aoi_flap_cooldown_secs * 1_000_000_000,
        target == t.target_interval_ms * 1_000_000,
        max == t.max_interval_ms * 1_000_000,
        save == t.save_interval_secs * 1_000_000_000,
        despawn == c.corpse_despawn_secs * 1_000_000_000,
        delay == c.initial_respawn_delay_secs * 1_000_000_000,
{
}

/// What is installed first holds from then on, whatever is installed later.
pub proof fn the_first_configuration_holds(s: &mut ConfigSlot, cfg: ServerConfig, u: &ServerConfig)
    requires
        call_ensures(ConfigSlot::install, (s, cfg), u),
    ensures
        old(s).installed() is None ==> *u == cfg && final(s).current() == cfg,
        old(s).installed() is Some ==> *u == old(s).installed()->0 && final(s).current() == old(s).current(),
{
}

} // verus!
