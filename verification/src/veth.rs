//! Building the interface-management commands for a virtual ethernet pair:
//! creating and tearing the pair down, addressing, promiscuous mode, and
//! bringing devices up. Each function returns the exact command text; the
//! caller runs it with whatever privilege runner it has.

use vstd::prelude::*;
use vstd::string::StringExecFns;

verus! {

/// The command adding a veth pair `<p>0` / `<p>1`.
pub open spec fn cmd_add_pair(p: Seq<char>) -> Seq<char> {
    "ip link add "@ + p + "0 type veth peer "@ + p + "1"@
}

/// The command deleting the pair via `<p>0`.
pub open spec fn cmd_del_pair(p: Seq<char>) -> Seq<char> {
    "ip link del "@ + p + "0"@
}

/// The command bringing a device up.
pub open spec fn cmd_up(dev: Seq<char>) -> Seq<char> {
    "ip link set "@ + dev + " up"@
}

/// The command giving a device a /24 address.
pub open spec fn cmd_addr(dev: Seq<char>, addr: Seq<char>) -> Seq<char> {
    "ip addr add "@ + addr + "/24 dev "@ + dev
}

/// The command switching a device's promiscuous mode.
pub open spec fn cmd_promisc(dev: Seq<char>, enable: bool) -> Seq<char> {
    "ip link set "@ + dev + " promisc "@ + (if enable {
        "on"@
    } else {
        "off"@
    })
}

/// The commands that configure both ends of the pair: address, promiscuous
/// mode and up, first for `<p>0` at `<ip>100`, then for `<p>1` at
/// `<ip>101`.
pub open spec fn up_pair_cmds(p: Seq<char>, ip: Seq<char>) -> Seq<Seq<char>> {
    seq![
        cmd_addr(p + "0"@, ip + "100"@),
        cmd_promisc(p + "0"@, true),
        cmd_up(p + "0"@),
        cmd_addr(p + "1"@, ip + "101"@),
        cmd_promisc(p + "1"@, true),
        cmd_up(p + "1"@),
    ]
}

/// The command that brings the device `dev` up.
pub fn up_if_dev(dev: &str) -> (r: String)
    ensures
        r@ == cmd_up(dev@),
{
    let mut s = String::from_str("ip link set ");
    s.append(dev);
    s.append(" up");
    s
}

/// The command that gives `dev` the address `addr`/24.
pub fn set_ipv4_addr(dev: &str, addr: &str) -> (r: String)
    ensures
        r@ == cmd_addr(dev@, addr@),
{
    let mut s = String::from_str("ip addr add ");
    s.append(addr);
    s.append("/24 dev ");
    s.append(dev);
    s
}

/// The command that switches promiscuous mode on `dev`.
pub fn set_promisc_mode(dev: &str, enable: bool) -> (r: String)
    ensures
        r@ == cmd_promisc(dev@, enable),
{
    let mut s = String::from_str("ip link set ");
    s.append(dev);
    s.append(" promisc ");
    if enable {
        s.append("on");
    } else {
        s.append("off");
    }
    s
}

/// The command that deletes the pair named by `prefix`.
pub fn teardown_pair(prefix: &str) -> (r: String)
    ensures
        r@ == cmd_del_pair(prefix@),
{
    let mut s = String::from_str("ip link del ");
    s.append(prefix);
    s.append("0");
    s
}

/// The commands that configure both ends of an existing pair.
pub fn up_pair(dev_prefix: &str, ip_prefix: &str) -> (r: Vec<String>)
    ensures
        r.deep_view() == up_pair_cmds(dev_prefix@, ip_prefix@),
{
    let mut out: Vec<String> = Vec::new();
    let mut d0 = dev_prefix.to_owned();
    d0.append("0");
    let mut a0 = ip_prefix.to_owned();
    a0.append("100");
    out.push(set_ipv4_addr(d0.as_str(), a0.as_str()));
    out.push(set_promisc_mode(d0.as_str(), true));
    out.push(up_if_dev(d0.as_str()));
    let mut d1 = dev_prefix.to_owned();
    d1.append("1");
    let mut a1 = ip_prefix.to_owned();
    a1.append("101");
    out.push(set_ipv4_addr(d1.as_str(), a1.as_str()));
    out.push(set_promisc_mode(d1.as_str(), true));
    out.push(up_if_dev(d1.as_str()));
    proof {
        assert(out.deep_view() =~= up_pair_cmds(dev_prefix@, ip_prefix@));
    }
    out
}

/// The commands that create a pair named by `dev_prefix` and configure
/// both of its ends under `ip_prefix`.
pub fn setup_pair(dev_prefix: &str, ip_prefix: &str) -> (r: Vec<String>)
    ensures
        r.deep_view() == seq![cmd_add_pair(dev_prefix@)] + up_pair_cmds(dev_prefix@, ip_prefix@),
{
    let mut add = String::from_str("ip link add ");
    add.append(dev_prefix);
    add.append("0 type veth peer ");
    add.append(dev_prefix);
    add.append("1");
    let mut out: Vec<String> = Vec::new();
    out.push(add);
    let mut d0 = dev_prefix.to_owned();
    d0.append("0");
    let mut a0 = ip_prefix.to_owned();
    a0.append("100");
    out.push(set_ipv4_addr(d0.as_str(), a0.as_str()));
    out.push(set_promisc_mode(d0.as_str(), true));
    out.push(up_if_dev(d0.as_str()));
    let mut d1 = dev_prefix.to_owned();
    d1.append("1");
    let mut a1 = ip_prefix.to_owned();
    a1.append("101");
    out.push(set_ipv4_addr(d1.as_str(), a1.as_str()));
    out.push(set_promisc_mode(d1.as_str(), true));
    out.push(up_if_dev(d1.as_str()));
    proof {
        assert(out.deep_view() =~= seq![cmd_add_pair(dev_prefix@)] + up_pair_cmds(
            dev_prefix@,
            ip_prefix@,
        ));
    }
    out
}

} // verus!
