//! The canonical entity model: containers, their port mappings, and the
//! metric snapshots attached to them.
//!
//! Percentages are carried in hundredths of a percent (10000 = 100%) so that
//! every value is a plain integer.

use vstd::prelude::*;
use vstd::multiset::Multiset;
use vstd::seq_lib::group_to_multiset_ensures;
use vstd::string::StringExecFns;
use crate::status::{status_of_state, ContainerStatus};
use crate::text::{dec_digits, lex_le, lemma_lex_total, skip_leading, str_le, strip_leading,
    u64_to_string};

verus! {

broadcast use group_to_multiset_ensures;

/// One port mapping of a container.
#[derive(Debug, Clone)]
pub struct PortMapping {
    /// Host port, absent when the port is not published on the host.
    pub host_port: Option<u16>,
    /// Port inside the container.
    pub container_port: u16,
    /// Protocol name, e.g. "tcp".
    pub protocol: String,
}

/// Display form of a port mapping: "host:container/proto" when published,
/// "container/proto" otherwise.
pub open spec fn port_display_spec(p: PortMapping) -> Seq<char> {
    match p.host_port {
        Some(h) => dec_digits(h as int) + seq![':'] + dec_digits(p.container_port as int) + seq![
            '/',
        ] + p.protocol@,
        None => dec_digits(p.container_port as int) + seq!['/'] + p.protocol@,
    }
}

impl PortMapping {
    /// Format as "host:container/proto", or "container/proto" without a host
    /// port.
    pub fn display(&self) -> (r: String)
        ensures
            r@ == port_display_spec(*self),
    {
        proof {
            reveal_strlit(":");
            reveal_strlit("/");
        }
        match self.host_port {
            Some(h) => {
                let mut s = u64_to_string(h as u64);
                s.append(":");
                let cp = u64_to_string(self.container_port as u64);
                s.append(cp.as_str());
                s.append("/");
                s.append(self.protocol.as_str());
                proof {
                    assert(s@ =~= port_display_spec(*self));
                }
                s
            },
            None => {
                let mut s = u64_to_string(self.container_port as u64);
                s.append("/");
                s.append(self.protocol.as_str());
                proof {
                    assert(s@ =~= port_display_spec(*self));
                }
                s
            },
        }
    }
}

/// Metric snapshot of one container. Absence of a snapshot means "not yet
/// sampled", which is distinct from zero usage.
#[derive(Debug, Clone, Copy, PartialEq)]
pub struct ContainerStats {
    /// CPU usage in hundredths of a percent.
    pub cpu_centi_percent: u64,
    /// Memory used, in bytes.
    pub memory_usage_bytes: u64,
    /// Memory limit, in bytes.
    pub memory_limit_bytes: u64,
    /// Memory usage in hundredths of a percent of the limit.
    pub memory_centi_percent: u64,
    /// Cumulative network bytes received.
    pub net_rx_bytes: u64,
    /// Cumulative network bytes sent.
    pub net_tx_bytes: u64,
    /// Receive rate in bytes per second; the raw probe never computes it, so
    /// it is always zero (a faithfully kept gap of the probe).
    pub net_rx_rate: u64,
    /// Send rate in bytes per second; always zero, as `net_rx_rate`.
    pub net_tx_rate: u64,
    /// GPU memory attributed to the container, in MB, when known.
    pub vram_usage_mb: Option<u64>,
}

/// Host-wide metric snapshot.
#[derive(Debug, Clone, PartialEq)]
pub struct SystemStats {
    /// Host CPU usage in hundredths of a percent.
    pub cpu_centi_percent: u64,
    /// Memory used, in bytes.
    pub memory_used_bytes: u64,
    /// Memory total, in bytes.
    pub memory_total_bytes: u64,
    /// Memory usage in hundredths of a percent.
    pub memory_centi_percent: u64,
    /// Disk used over local physical filesystems, in bytes.
    pub disk_used_bytes: u64,
    /// Disk total, in bytes.
    pub disk_total_bytes: u64,
    /// Disk usage in hundredths of a percent.
    pub disk_centi_percent: u64,
    /// GPU memory usage in hundredths of a percent, when a GPU is present.
    pub vram_centi_percent: Option<u64>,
}

impl Default for SystemStats {
    /// The zero snapshot, with no GPU reading.
    fn default() -> (r: Self)
        ensures
            r.cpu_centi_percent == 0,
            r.memory_used_bytes == 0,
            r.memory_total_bytes == 0,
            r.memory_centi_percent == 0,
            r.disk_used_bytes == 0,
            r.disk_total_bytes == 0,
            r.disk_centi_percent == 0,
            r.vram_centi_percent is None,
    {
        SystemStats {
            cpu_centi_percent: 0,
            memory_used_bytes: 0,
            memory_total_bytes: 0,
            memory_centi_percent: 0,
            disk_used_bytes: 0,
            disk_total_bytes: 0,
            disk_centi_percent: 0,
            vram_centi_percent: None,
        }
    }
}

/// One container in the canonical list.
#[derive(Debug, Clone)]
pub struct ContainerInfo {
    /// Opaque runtime identity.
    pub id: String,
    /// Display key; stable across refreshes and used for history and
    /// selection.
    pub name: String,
    /// Image reference.
    pub image: String,
    /// Lifecycle status.
    pub status: ContainerStatus,
    /// Classified as a CLI container: no port published on the host.
    pub is_cli: bool,
    /// First container port, for a compact display.
    pub port: Option<u16>,
    /// All port mappings.
    pub ports: Vec<PortMapping>,
    /// Latest metric snapshot, absent until sampled.
    pub stats: Option<ContainerStats>,
    /// Creation timestamp, seconds since the epoch.
    pub created: Option<i64>,
    /// Compose project / group membership, when labelled.
    pub group: Option<String>,
}

/// Raw description of one container as the runtime lists it, before the
/// library normalises it.
pub struct EntityDescriptor {
    pub id: String,
    /// Raw name, possibly with leading '/' characters.
    pub name: String,
    pub image: String,
    /// Raw lifecycle state string.
    pub state: String,
    pub ports: Vec<PortMapping>,
    pub created: Option<i64>,
    pub group: Option<String>,
}

/// Some port of the list is published on the host.
pub open spec fn any_host_port(ports: Seq<PortMapping>) -> bool {
    exists|i: int| 0 <= i < ports.len() && (#[trigger] ports[i].host_port) is Some
}

/// The entity `e` is the normalised form of the descriptor `d`: name stripped
/// of leading slashes, state parsed, CLI classification derived from the
/// ports, first container port extracted, no metrics attached yet.
pub open spec fn entity_matches_desc(e: ContainerInfo, d: EntityDescriptor) -> bool {
    &&& e.id@ == d.id@
    &&& e.name@ == skip_leading(d.name@, '/')
    &&& e.image@ == d.image@
    &&& e.status == status_of_state(d.state@)
    &&& e.is_cli == !any_host_port(d.ports@)
    &&& e.port == (if d.ports@.len() > 0 {
        Some(d.ports@[0].container_port)
    } else {
        None::<u16>
    })
    &&& e.ports@ == d.ports@
    &&& e.stats is None
    &&& e.created == d.created
    &&& match (e.group, d.group) {
        (Some(a), Some(b)) => a@ == b@,
        (None, None) => true,
        _ => false,
    }
}

/// Normalise one raw descriptor into a canonical entity.
pub fn build_entity(d: EntityDescriptor) -> (r: ContainerInfo)
    ensures
        entity_matches_desc(r, d),
{
    let name = String::from_str(strip_leading(d.name.as_str(), '/'));
    let status = ContainerStatus::from_docker_state(d.state.as_str());
    let mut has_host = false;
    let mut i: usize = 0;
    let n = d.ports.len();
    while i < n
        invariant
            n == d.ports@.len(),
            0 <= i <= n,
            has_host == exists|j: int|
                0 <= j < i && (#[trigger] d.ports@[j].host_port) is Some,
        decreases n - i,
    {
        if d.ports[i].host_port.is_some() {
            has_host = true;
        }
        i = i + 1;
    }
    let port: Option<u16> = if d.ports.len() > 0 {
        Some(d.ports[0].container_port)
    } else {
        None
    };
    ContainerInfo {
        id: d.id,
        name,
        image: d.image,
        status,
        is_cli: !has_host,
        port,
        ports: d.ports,
        stats: None,
        created: d.created,
        group: d.group,
    }
}

/// Adjacent entities are in name order.
pub open spec fn sorted_by_name(s: Seq<ContainerInfo>) -> bool {
    forall|i: int| 0 <= i < s.len() - 1 ==> lex_le(#[trigger] s[i].name@, s[i + 1].name@)
}

proof fn lemma_insert_multiset(s: Seq<ContainerInfo>, i: int, e: ContainerInfo)
    requires
        0 <= i <= s.len(),
    ensures
        s.insert(i, e).to_multiset() =~= s.to_multiset().insert(e),
{
    let t = s.insert(i, e);
    assert(t[i] == e);
    assert(t.remove(i) =~= s);
    assert(t.remove(i).to_multiset() =~= t.to_multiset().remove(e));
    assert(t.to_multiset().contains(e)) by {
        assert(t.contains(e));
    }
    assert(t.to_multiset() =~= t.to_multiset().remove(e).insert(e));
}

/// Sort a list of entities by name, keeping exactly the same entities.
pub fn sort_by_name_vec(mut v: Vec<ContainerInfo>) -> (r: Vec<ContainerInfo>)
    ensures
        sorted_by_name(r@),
        r@.to_multiset() == v@.to_multiset(),
        r@.len() == v@.len(),
{
    let ghost orig = v@;
    let mut out: Vec<ContainerInfo> = Vec::new();
    while v.len() > 0
        invariant
            sorted_by_name(out@),
            out@.to_multiset().add(v@.to_multiset()) =~= orig.to_multiset(),
            out@.len() + v@.len() == orig.len(),
        decreases v@.len(),
    {
        let ghost vpre = v@;
        let item = v.remove(0);
        proof {
            assert(vpre.remove(0).to_multiset() =~= vpre.to_multiset().remove(vpre[0]));
            assert(vpre.to_multiset().contains(vpre[0])) by {
                assert(vpre.contains(vpre[0]));
            }
        }
        let mut pos: usize = 0;
        let olen = out.len();
        while pos < olen && str_le(out[pos].name.as_str(), item.name.as_str())
            invariant
                olen == out@.len(),
                0 <= pos <= olen,
                forall|j: int| 0 <= j < pos ==> lex_le(#[trigger] out@[j].name@, item.name@),
            decreases olen - pos,
        {
            pos = pos + 1;
        }
        proof {
            if pos < olen {
                lemma_lex_total(out@[pos as int].name@, item.name@);
            }
        }
        let ghost opre = out@;
        out.insert(pos, item);
        proof {
            lemma_insert_multiset(opre, pos as int, item);
            assert(sorted_by_name(out@)) by {
                assert forall|i: int| 0 <= i < out@.len() - 1 implies lex_le(
                    #[trigger] out@[i].name@,
                    out@[i + 1].name@,
                ) by {
                    if i + 1 < pos {
                        assert(out@[i] == opre[i] && out@[i + 1] == opre[i + 1]);
                    } else if i + 1 == pos {
                        assert(out@[i] == opre[i]);
                    } else if i == pos {
                        assert(out@[i + 1] == opre[i]);
                    } else {
                        assert(out@[i] == opre[i - 1] && out@[i + 1] == opre[i]);
                    }
                }
            }
            assert(out@.to_multiset().add(v@.to_multiset()) =~= orig.to_multiset()) by {
                assert(vpre.to_multiset() =~= v@.to_multiset().insert(item));
            }
        }
    }
    proof {
        assert(v@.to_multiset() =~= Multiset::<ContainerInfo>::empty()) by {
            assert(v@ =~= Seq::<ContainerInfo>::empty());
        }
        assert(out@.to_multiset() =~= orig.to_multiset());
    }
    out
}

/// Normalise a raw listing into the canonical, name-ordered entity list.
///
/// The result holds exactly one entity for each descriptor (the normalised
/// form that `entity_matches_desc` states), ordered by name.
pub fn build_entity_list(ds: Vec<EntityDescriptor>) -> (r: Vec<ContainerInfo>)
    ensures
        sorted_by_name(r@),
        exists|m: Seq<ContainerInfo>|
            #![trigger m.to_multiset()]
            m.len() == ds@.len() && (forall|i: int|
                0 <= i < m.len() ==> entity_matches_desc(#[trigger] m[i], ds@[i]))
                && r@.to_multiset() == m.to_multiset(),
        r@.len() == ds@.len(),
{
    let ghost dsg = ds@;
    let mut mapped: Vec<ContainerInfo> = Vec::new();
    let mut rest = ds;
    while rest.len() > 0
        invariant
            mapped@.len() + rest@.len() == dsg.len(),
            rest@ =~= dsg.subrange(mapped@.len() as int, dsg.len() as int),
            forall|i: int|
                0 <= i < mapped@.len() ==> entity_matches_desc(#[trigger] mapped@[i], dsg[i]),
        decreases rest@.len(),
    {
        let d = rest.remove(0);
        let e = build_entity(d);
        mapped.push(e);
    }
    let ghost m = mapped@;
    let r = sort_by_name_vec(mapped);
    proof {
        assert(m.len() == dsg.len() && (forall|i: int|
            0 <= i < m.len() ==> entity_matches_desc(#[trigger] m[i], dsg[i]))
            && r@.to_multiset() == m.to_multiset());
    }
    r
}

} // verus!
