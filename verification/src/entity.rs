//! Identifiers, plugin descriptions and health levels shared by the app.
use vstd::prelude::*;
use vstd::string::*;
use std::collections::HashMap;

verus! {

/// A provider backend: the provider plugin and the backend it offers.
#[derive(PartialEq, Eq, Hash, Debug)]
pub struct ProviderBackendId {
    pub provider_id: String,
    pub backend_id: String,
}

impl ProviderBackendId {
    /// `"<provider> - <backend>"`, as shown to the user.
    pub fn display(&self) -> (r: String)
        ensures
            r@ == self.provider_id@ + " - "@ + self.backend_id@,
    {
        let mut r = self.provider_id.clone();
        r.append(" - ");
        r.append(self.backend_id.as_str());
        r
    }
}

/// A capability offered by an extension.
#[derive(Clone, Debug, Default)]
pub struct ExtensionCapabilityId {
    pub extension_id: String,
    pub capability_id: String,
}

#[derive(Clone, Copy, Debug, PartialEq, Eq, Structural)]
pub enum PluginType {
    Extension,
    Provider,
    Mcp,
}

#[derive(Clone, Copy, Debug, PartialEq, Eq, Structural)]
pub enum Transport {
    Local,
    Http,
}

/// How a plugin is reached: a local command or a remote endpoint.
#[derive(Debug, Clone)]
pub enum PluginArgs {
    Local { command: String, args: Vec<String> },
    Remote { url: String, requires_auth: bool },
}

/// A configured plugin.
#[derive(Clone)]
pub struct Plugin {
    pub name: String,
    pub transport: Transport,
    pub timeout: u32,
    pub disabled: bool,
    pub env: HashMap<String, String>,
    pub args: PluginArgs,
}

impl Plugin {
    /// A plugin served by this very executable (`command`), started with
    /// `flag` and the plugin's name; it has no timeout and no environment.
    pub fn builtin(name: &str, flag: &str, command: String) -> (r: Self)
        ensures
            r.name@ == name@,
            r.transport == Transport::Local,
            r.timeout == 0,
            !r.disabled,
            r.env@.len() == 0,
            r.args matches PluginArgs::Local { command: c, args } && c@ == command@ && args@.len() == 2
                && args@[0]@ == flag@ && args@[1]@ == name@,
    {
        let mut args: Vec<String> = Vec::new();
        args.push(flag.to_owned());
        args.push(name.to_owned());
        Plugin {
            name: name.to_owned(),
            transport: Transport::Local,
            timeout: 0,
            disabled: false,
            env: HashMap::new(),
            args: PluginArgs::Local { command, args },
        }
    }
}

/// Liveness of one plugin or tool.
#[derive(Clone, Copy, Debug, PartialEq, Eq, Structural)]
pub enum HealthStatus {
    Starting,
    Running,
    Unhealthy,
}

impl HealthStatus {
    /// The `u8` a status is stored as (`Starting` 0, `Running` 1,
    /// `Unhealthy` 2).
    pub open spec fn code(self) -> u8 {
        match self {
            HealthStatus::Starting => 0,
            HealthStatus::Running => 1,
            HealthStatus::Unhealthy => 2,
        }
    }

    /// The stored code of a status.
    pub fn to_u8(self) -> (r: u8)
        ensures
            r == self.code(),
    {
        match self {
            HealthStatus::Starting => 0,
            HealthStatus::Running => 1,
            HealthStatus::Unhealthy => 2,
        }
    }

    /// Reconstruct from the stored `u8`. Unknown values map to `Unhealthy`
    /// (fail-safe: don't use a tool in an unclear state).
    pub fn from_u8(value: u8) -> (r: Self)
        ensures
            r == (if value == 0 {
                HealthStatus::Starting
            } else if value == 1 {
                HealthStatus::Running
            } else {
                HealthStatus::Unhealthy
            }),
    {
        match value {
            0 => HealthStatus::Starting,
            1 => HealthStatus::Running,
            _ => HealthStatus::Unhealthy,
        }
    }
}

/// Storing a status and reading it back gives the same status.
pub proof fn health_status_code_round_trip(s: HealthStatus)
    ensures
        (if s.code() == 0 {
            HealthStatus::Starting
        } else if s.code() == 1 {
            HealthStatus::Running
        } else {
            HealthStatus::Unhealthy
        }) == s,
{
}

/// Health of a group: whether any member is up (`Healthy`), any is down
/// (`Down`), both (`Degraded`), or none is active (`Inactive`).
#[derive(Clone, Copy, Debug, PartialEq, Eq, Structural)]
pub enum HealthLevel {
    Inactive,
    Healthy,
    Down,
    Degraded,
}

impl HealthLevel {
    /// Some member of the group is up.
    pub open spec fn up(self) -> bool {
        self == HealthLevel::Healthy || self == HealthLevel::Degraded
    }

    /// Some member of the group is down.
    pub open spec fn down(self) -> bool {
        self == HealthLevel::Down || self == HealthLevel::Degraded
    }

    /// The level with the given up and down parts.
    pub open spec fn of_parts(up: bool, down: bool) -> HealthLevel {
        if up && down {
            HealthLevel::Degraded
        } else if up {
            HealthLevel::Healthy
        } else if down {
            HealthLevel::Down
        } else {
            HealthLevel::Inactive
        }
    }

    /// The level of `total` members of which `healthy` are up.
    pub open spec fn counted(total: int, healthy: int) -> HealthLevel {
        if total == 0 {
            HealthLevel::Inactive
        } else if healthy == total {
            HealthLevel::Healthy
        } else if healthy == 0 {
            HealthLevel::Down
        } else {
            HealthLevel::Degraded
        }
    }

    /// The level of a whole group of levels.
    pub open spec fn combined(levels: Seq<HealthLevel>) -> HealthLevel {
        HealthLevel::of_parts(
            exists|i: int| 0 <= i < levels.len() && (#[trigger] levels[i]).up(),
            exists|i: int| 0 <= i < levels.len() && (#[trigger] levels[i]).down(),
        )
    }

    pub fn from_counts(total: usize, healthy: usize) -> (r: Self)
        ensures
            r == HealthLevel::counted(total as int, healthy as int),
    {
        if total == 0 {
            HealthLevel::Inactive
        } else if healthy == total {
            HealthLevel::Healthy
        } else if healthy == 0 {
            HealthLevel::Down
        } else {
            HealthLevel::Degraded
        }
    }

    pub fn combine(levels: Vec<HealthLevel>) -> (r: Self)
        ensures
            r == HealthLevel::combined(levels@),
    {
        let n = levels.len();
        let mut up = false;
        let mut down = false;
        let mut i: usize = 0;
        while i < n
            invariant
                n == levels@.len(),
                i <= n,
                up == exists|j: int| 0 <= j < i && (#[trigger] levels@[j]).up(),
                down == exists|j: int| 0 <= j < i && (#[trigger] levels@[j]).down(),
            decreases n - i,
        {
            let l = levels[i];
            match l {
                HealthLevel::Inactive => {},
                HealthLevel::Healthy => {
                    up = true;
                },
                HealthLevel::Down => {
                    down = true;
                },
                HealthLevel::Degraded => {
                    up = true;
                    down = true;
                },
            }
            i = i + 1;
        }
        if up && down {
            HealthLevel::Degraded
        } else if up {
            HealthLevel::Healthy
        } else if down {
            HealthLevel::Down
        } else {
            HealthLevel::Inactive
        }
    }

    /// The level a single status contributes.
    pub open spec fn of_status(status: HealthStatus) -> HealthLevel {
        match status {
            HealthStatus::Starting => HealthLevel::Inactive,
            HealthStatus::Running => HealthLevel::Healthy,
            HealthStatus::Unhealthy => HealthLevel::Down,
        }
    }

    /// The level a single status contributes.
    pub fn from_status(status: HealthStatus) -> (r: Self)
        ensures
            r == HealthLevel::of_status(status),
    {
        match status {
            HealthStatus::Starting => HealthLevel::Inactive,
            HealthStatus::Running => HealthLevel::Healthy,
            HealthStatus::Unhealthy => HealthLevel::Down,
        }
    }
}

/// How many of the statuses satisfy `p`.
pub open spec fn count_status(s: Seq<HealthStatus>, p: spec_fn(HealthStatus) -> bool) -> nat
    decreases s.len(),
{
    if s.len() == 0 {
        0
    } else {
        count_status(s.drop_last(), p) + if p(s.last()) { 1nat } else { 0nat }
    }
}

pub open spec fn is_running() -> spec_fn(HealthStatus) -> bool {
    |h: HealthStatus| h == HealthStatus::Running
}

pub open spec fn is_settled() -> spec_fn(HealthStatus) -> bool {
    |h: HealthStatus| h != HealthStatus::Starting
}

fn count_matching(statuses: &[HealthStatus], settled_only: bool) -> (r: (usize, usize))
    ensures
        r.0 == count_status(statuses@, if settled_only { is_settled() } else { |h: HealthStatus| true }),
        r.1 == count_status(statuses@, is_running()),
{
    let ghost all = if settled_only { is_settled() } else { |h: HealthStatus| true };
    let n = statuses.len();
    let mut total: usize = 0;
    let mut healthy: usize = 0;
    let mut i: usize = 0;
    while i < n
        invariant
            n == statuses@.len(),
            i <= n,
            all == (if settled_only { is_settled() } else { |h: HealthStatus| true }),
            total == count_status(statuses@.subrange(0, i as int), all),
            healthy == count_status(statuses@.subrange(0, i as int), is_running()),
            total <= i,
            healthy <= i,
        decreases n - i,
    {
        assert(statuses@.subrange(0, i + 1).drop_last() =~= statuses@.subrange(0, i as int));
        let st = statuses[i];
        if !settled_only || st != HealthStatus::Starting {
            total = total + 1;
        }
        if st == HealthStatus::Running {
            healthy = healthy + 1;
        }
        i = i + 1;
    }
    assert(statuses@.subrange(0, n as int) =~= statuses@);
    (total, healthy)
}

/// The health of a set of backends: how many of them run.
pub fn backends_health(statuses: &[HealthStatus]) -> (r: HealthLevel)
    ensures
        r == HealthLevel::counted(statuses@.len() as int, count_status(statuses@, is_running()) as int),
{
    let (total, healthy) = count_matching(statuses, false);
    proof {
        lemma_count_all(statuses@);
    }
    HealthLevel::from_counts(total, healthy)
}

/// The health of a set of plugins: members still starting do not count.
pub fn plugins_health(statuses: &[HealthStatus]) -> (r: HealthLevel)
    ensures
        r == HealthLevel::counted(count_status(statuses@, is_settled()) as int, count_status(statuses@, is_running()) as int),
{
    let (settled, healthy) = count_matching(statuses, true);
    HealthLevel::from_counts(settled, healthy)
}

proof fn lemma_count_all(s: Seq<HealthStatus>)
    ensures
        count_status(s, |h: HealthStatus| true) == s.len(),
    decreases s.len(),
{
    if s.len() > 0 {
        lemma_count_all(s.drop_last());
    }
}

proof fn lemma_running_settled(s: Seq<HealthStatus>)
    ensures
        count_status(s, is_running()) <= count_status(s, is_settled()),
    decreases s.len(),
{
    if s.len() > 0 {
        lemma_running_settled(s.drop_last());
    }
}

/// Plugins that are all still starting leave the group inactive; once every
/// settled plugin runs, the group is healthy.
pub proof fn starting_plugins_do_not_count(s: Seq<HealthStatus>)
    ensures
        count_status(s, is_settled()) == 0 ==> HealthLevel::counted(count_status(s, is_settled()) as int, count_status(s, is_running()) as int) == HealthLevel::Inactive,
        count_status(s, is_settled()) > 0 && count_status(s, is_running()) == count_status(s, is_settled())
            ==> HealthLevel::counted(count_status(s, is_settled()) as int, count_status(s, is_running()) as int) == HealthLevel::Healthy,
        count_status(s, is_running()) <= count_status(s, is_settled()),
{
    lemma_running_settled(s);
}

/// A level is determined by its up and down parts.
pub proof fn health_level_parts(l: HealthLevel)
    ensures
        HealthLevel::of_parts(l.up(), l.down()) == l,
{
}

/// Combining a single level gives it back, and combining nothing is `Inactive`.
pub proof fn combine_unit(l: HealthLevel)
    ensures
        HealthLevel::combined(seq![l]) == l,
        HealthLevel::combined(Seq::<HealthLevel>::empty()) == HealthLevel::Inactive,
{
    let s = seq![l];
    if l.up() {
        assert(s[0].up());
    }
    if l.down() {
        assert(s[0].down());
    }
}

/// Combining is insensitive to how a group is split: the level of `a + b`
/// is the level of the two partial levels.
pub proof fn combine_split(a: Seq<HealthLevel>, b: Seq<HealthLevel>)
    ensures
        HealthLevel::combined(a + b) == HealthLevel::combined(
            seq![HealthLevel::combined(a), HealthLevel::combined(b)],
        ),
{
    let ab = a + b;
    let ca = HealthLevel::combined(a);
    let cb = HealthLevel::combined(b);
    let pair = seq![ca, cb];
    let up_ab = exists|i: int| 0 <= i < ab.len() && (#[trigger] ab[i]).up();
    let up_pair = exists|i: int| 0 <= i < pair.len() && (#[trigger] pair[i]).up();
    let down_ab = exists|i: int| 0 <= i < ab.len() && (#[trigger] ab[i]).down();
    let down_pair = exists|i: int| 0 <= i < pair.len() && (#[trigger] pair[i]).down();
    assert(up_ab == up_pair) by {
        if up_ab {
            let i = choose|i: int| 0 <= i < ab.len() && (#[trigger] ab[i]).up();
            if i < a.len() {
                assert(a[i] == ab[i]);
                assert(pair[0].up());
            } else {
                assert(b[i - a.len()] == ab[i]);
                assert(pair[1].up());
            }
        }
        if up_pair {
            if ca.up() {
                let i = choose|i: int| 0 <= i < a.len() && (#[trigger] a[i]).up();
                assert(ab[i] == a[i]);
            } else {
                assert(pair[1].up());
                let i = choose|i: int| 0 <= i < b.len() && (#[trigger] b[i]).up();
                assert(ab[a.len() + i] == b[i]);
            }
        }
    }
    assert(down_ab == down_pair) by {
        if down_ab {
            let i = choose|i: int| 0 <= i < ab.len() && (#[trigger] ab[i]).down();
            if i < a.len() {
                assert(a[i] == ab[i]);
                assert(pair[0].down());
            } else {
                assert(b[i - a.len()] == ab[i]);
                assert(pair[1].down());
            }
        }
        if down_pair {
            if ca.down() {
                let i = choose|i: int| 0 <= i < a.len() && (#[trigger] a[i]).down();
                assert(ab[i] == a[i]);
            } else {
                assert(pair[1].down());
                let i = choose|i: int| 0 <= i < b.len() && (#[trigger] b[i]).down();
                assert(ab[a.len() + i] == b[i]);
            }
        }
    }
}

/// The level counted from `healthy` running members out of `total` is the
/// combination of their statuses, when the others are unhealthy.
pub proof fn from_counts_agrees_with_combine(total: nat, healthy: nat)
    requires
        healthy <= total,
    ensures
        HealthLevel::counted(total as int, healthy as int) == HealthLevel::combined(
            Seq::new(total, |i: int| if i < healthy { HealthLevel::Healthy } else { HealthLevel::Down }),
        ),
{
    let s = Seq::new(total, |i: int| if i < healthy { HealthLevel::Healthy } else { HealthLevel::Down });
    if healthy > 0 {
        assert(s[0].up());
    }
    if healthy < total {
        assert(s[healthy as int].down());
    }
}

/// An icon: a theme name, a file path or embedded image bytes.
#[derive(Clone, Debug, PartialEq, Eq)]
pub enum Icon {
    Name(String),
    Path(String),
    Embedded(Vec<u8>),
}

/// The 128-bit value of the UUID that `s` spells, as `uuid::Uuid::parse_str`
/// reads it, or `None` where it spells none.
pub uninterp spec fn parsed_uuid(s: Seq<char>) -> Option<u128>;

/// Calls `uuid::Uuid::parse_str` and takes the UUID's 128-bit value: the
/// result is the parse of `s`, a function of `s` alone.
#[verifier::external_body]
pub(crate) fn parse_uuid(s: &str) -> (r: Option<u128>)
    ensures
        r == parsed_uuid(s@),
{
    match uuid::Uuid::parse_str(s) {
        Ok(u) => Some(u.as_u128()),
        Err(_) => None,
    }
}

} // verus!
