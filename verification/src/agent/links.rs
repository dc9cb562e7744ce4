//! What the commands of a plan do to the links of a node.
use crate::agent::inventory::{flag, InterfaceInventory, NodeInventory};
use crate::agent::plan::{
    address_command, command, delete_command, disabled_features, end_step, expanded, find_interface,
    host_part, hosts, move_commands, namespace_of, offload_command, plan_of, pool_fits,
    probe_command, restore_command, restore_commands, restored_features, setup_commands,
    undo_commands, CommandView, EndpointPlanView,
};
use crate::domain::validity::{address_text_has_no_slash, next_char_at};
use crate::domain::network::{
    EndpointProfile, NetworkProfileDraft, Provisioning, ProvisioningPolicy,
};
use crate::ip::{ipv4_of, ipv4_text, ipv4_text_denotes_address};
use crate::text::{decimal, decimal_number, decimals_denote_their_number, next_char};
use vstd::prelude::*;

verus! {

/// A network link: the namespace that it is in, or no name where it is the node's own; whether it
/// is up; its MTU; its addresses in the order in which they were given to it; and its offloads.
#[verifier::ext_equal]
pub struct Link {
    pub place: Seq<char>,
    pub up: bool,
    pub mtu: Seq<char>,
    pub addresses: Seq<Seq<char>>,
    pub offloads: Map<Seq<char>, bool>,
}

/// The network of a node: its namespaces, those whose loopback link is up, and its other links.
#[verifier::ext_equal]
pub struct Network {
    pub namespaces: Set<Seq<char>>,
    pub loopbacks: Set<Seq<char>>,
    pub links: Map<Seq<char>, Link>,
}

/// The node's own namespace.
pub open spec fn home() -> Seq<char> {
    Seq::empty()
}

/// A link is in a namespace.
pub open spec fn is_in(net: Network, name: Seq<char>, place: Seq<char>) -> bool {
    net.links.dom().contains(name) && net.links[name].place == place
}

/// The network with one link changed.
pub open spec fn with_link(net: Network, name: Seq<char>, link: Link) -> Network {
    Network { links: net.links.insert(name, link), ..net }
}

/// What a word says of a link: up or down.
pub open spec fn state_word(word: Seq<char>) -> Option<bool> {
    if word == "up"@ {
        Some(true)
    } else if word == "down"@ {
        Some(false)
    } else {
        None
    }
}

/// What a word says of an offload: on or off.
pub open spec fn switch_word(word: Seq<char>) -> Option<bool> {
    if word == "on"@ {
        Some(true)
    } else if word == "off"@ {
        Some(false)
    } else {
        None
    }
}

/// `ethtool -K`: switches an offload of a link.
pub open spec fn switch_offload(
    net: Network,
    place: Seq<char>,
    name: Seq<char>,
    feature: Seq<char>,
    word: Seq<char>,
) -> Option<Network> {
    match switch_word(word) {
        Some(on) if is_in(net, name, place) => {
            let link = net.links[name];
            Some(
                with_link(
                    net,
                    name,
                    Link { offloads: link.offloads.insert(feature, on), ..link },
                ),
            )
        },
        _ => None,
    }
}

/// `ip link set NAME netns PLACE`: a link that goes to another namespace is down there and has lost
/// its addresses. `1` is the namespace of the first process, which is the node's own.
pub open spec fn move_link(net: Network, place: Seq<char>, name: Seq<char>, to: Seq<char>) -> Option<
    Network,
> {
    let target = if to == "1"@ {
        home()
    } else {
        to
    };
    if is_in(net, name, place) && (target == home() || net.namespaces.contains(target)) {
        let link = net.links[name];
        Some(
            with_link(
                net,
                name,
                Link { place: target, up: false, addresses: Seq::empty(), ..link },
            ),
        )
    } else {
        None
    }
}

/// `ip link set NAME ...`: changes a link, or the loopback link of a namespace.
pub open spec fn set_link(net: Network, place: Seq<char>, name: Seq<char>, rest: Seq<Seq<char>>) -> Option<
    Network,
> {
    if name == "lo"@ {
        if rest.len() == 1 && net.namespaces.contains(place) {
            match state_word(rest[0]) {
                Some(true) => Some(Network { loopbacks: net.loopbacks.insert(place), ..net }),
                Some(false) => Some(Network { loopbacks: net.loopbacks.remove(place), ..net }),
                None => None,
            }
        } else {
            None
        }
    } else if !is_in(net, name, place) {
        None
    } else if rest.len() == 1 {
        match state_word(rest[0]) {
            Some(up) => Some(with_link(net, name, Link { up, ..net.links[name] })),
            None => None,
        }
    } else if rest.len() == 2 && rest[0] == "netns"@ {
        move_link(net, place, name, rest[1])
    } else if rest.len() == 2 && rest[0] == "mtu"@ {
        Some(with_link(net, name, Link { mtu: rest[1], ..net.links[name] }))
    } else if rest.len() == 3 && rest[0] == "mtu"@ {
        match state_word(rest[2]) {
            Some(up) => Some(with_link(net, name, Link { mtu: rest[1], up, ..net.links[name] })),
            None => None,
        }
    } else {
        None
    }
}

/// `ip link` and `ip address` in a namespace. An address that a link has already is refused.
pub open spec fn change_in(net: Network, place: Seq<char>, args: Seq<Seq<char>>) -> Option<Network> {
    if args.len() == 5 && args[0] == "address"@ && args[1] == "add"@ && args[3] == "dev"@ {
        if is_in(net, args[4], place) && !net.links[args[4]].addresses.contains(args[2]) {
            let link = net.links[args[4]];
            Some(
                with_link(net, args[4], Link { addresses: link.addresses.push(args[2]), ..link }),
            )
        } else {
            None
        }
    } else if args.len() >= 4 && args[0] == "link"@ && args[1] == "set"@ {
        set_link(net, place, args[2], args.subrange(3, args.len() as int))
    } else {
        None
    }
}

/// The network after a command, as the tools document it; nothing where the command fails or is not
/// one that is understood here. `arping` changes nothing. A namespace is deleted only once no link is
/// left in it.
pub open spec fn after(net: Network, c: CommandView) -> Option<Network> {
    let args = c.args;
    if c.program == "arping"@ {
        Some(net)
    } else if c.program == "ethtool"@ {
        if args.len() == 4 && args[0] == "-K"@ {
            switch_offload(net, home(), args[1], args[2], args[3])
        } else {
            None
        }
    } else if c.program != "ip"@ || args.len() < 3 {
        None
    } else if args[0] == "netns"@ {
        if args.len() == 3 && args[1] == "add"@ {
            if net.namespaces.contains(args[2]) {
                None
            } else {
                Some(
                    Network {
                        namespaces: net.namespaces.insert(args[2]),
                        loopbacks: net.loopbacks.remove(args[2]),
                        ..net
                    },
                )
            }
        } else if args.len() == 3 && args[1] == "del"@ {
            if net.namespaces.contains(args[2]) && forall|name: Seq<char>|
                !#[trigger] is_in(net, name, args[2]) {
                Some(
                    Network {
                        namespaces: net.namespaces.remove(args[2]),
                        loopbacks: net.loopbacks.remove(args[2]),
                        ..net
                    },
                )
            } else {
                None
            }
        } else if args.len() == 8 && args[1] == "exec"@ && args[3] == "ethtool"@ && args[4] == "-K"@ {
            switch_offload(net, args[2], args[5], args[6], args[7])
        } else {
            None
        }
    } else if args[0] == "-n"@ {
        change_in(net, args[1], args.subrange(2, args.len() as int))
    } else {
        change_in(net, home(), args)
    }
}

/// The network after the first `n` commands; nothing where one of them fails.
pub open spec fn after_first(net: Network, commands: Seq<CommandView>, n: int) -> Option<Network>
    decreases n,
{
    if n <= 0 {
        Some(net)
    } else {
        match after_first(net, commands, n - 1) {
            Some(more) => after(more, commands[n - 1]),
            None => None,
        }
    }
}

/// The network after commands.
pub open spec fn after_all(net: Network, commands: Seq<CommandView>) -> Option<Network> {
    after_first(net, commands, commands.len() as int)
}

proof fn first_of_longer(net: Network, a: Seq<CommandView>, b: Seq<CommandView>, n: int)
    requires
        0 <= n <= a.len(),
    ensures
        after_first(net, a + b, n) == after_first(net, a, n),
    decreases n,
{
    if n > 0 {
        first_of_longer(net, a, b, n - 1);
        assert((a + b)[n - 1] == a[n - 1]);
    }
}

proof fn rest_of_longer(net: Network, a: Seq<CommandView>, b: Seq<CommandView>, n: int)
    requires
        0 <= n <= b.len(),
    ensures
        after_first(net, a + b, a.len() + n) == match after_all(net, a) {
            Some(more) => after_first(more, b, n),
            None => None,
        },
    decreases n,
{
    if n > 0 {
        rest_of_longer(net, a, b, n - 1);
        assert((a + b)[a.len() + n - 1] == b[n - 1]);
    } else {
        first_of_longer(net, a, b, a.len() as int);
    }
}

/// Commands run one after the other.
proof fn one_after_the_other(net: Network, a: Seq<CommandView>, b: Seq<CommandView>)
    ensures
        after_all(net, a + b) == match after_all(net, a) {
            Some(more) => after_all(more, b),
            None => None,
        },
{
    rest_of_longer(net, a, b, b.len() as int);
}

proof fn words_are_told_apart()
    ensures
        "arping"@ != "ethtool"@,
        "arping"@ != "ip"@,
        "ethtool"@ != "ip"@,
        "netns"@ != "-n"@,
        "netns"@ != "link"@,
        "netns"@ != "mtu"@,
        "-n"@ != "link"@,
        "link"@ != "address"@,
        "add"@ != "del"@,
        "up"@ != "down"@,
        "on"@ != "off"@,
        "1"@.len() == 1,
{
    reveal_strlit("arping");
    reveal_strlit("ethtool");
    reveal_strlit("ip");
    reveal_strlit("netns");
    reveal_strlit("-n");
    reveal_strlit("link");
    reveal_strlit("mtu");
    reveal_strlit("address");
    reveal_strlit("add");
    reveal_strlit("del");
    reveal_strlit("up");
    reveal_strlit("down");
    reveal_strlit("on");
    reveal_strlit("off");
    reveal_strlit("1");
    assert("arping"@.len() == 6 && "ethtool"@.len() == 7 && "ip"@.len() == 2);
    assert("netns"@.len() == 5 && "-n"@.len() == 2 && "link"@.len() == 4 && "mtu"@.len() == 3);
    assert("add"@[0] == 'a' && "del"@[0] == 'd');
    assert("up"@.len() == 2 && "down"@.len() == 4 && "on"@.len() == 2 && "off"@.len() == 3);
}

/// The link that an end is to use is the node's own, and its namespace is not there yet.
pub open spec fn is_ready(net: Network, interface: Seq<char>, namespace: Seq<char>) -> bool {
    &&& interface != "lo"@
    &&& namespace != home()
    &&& namespace != "1"@
    &&& is_in(net, interface, home())
    &&& !net.namespaces.contains(namespace)
}

/// All offloads that a test must not have are off.
pub open spec fn all_off(offloads: Map<Seq<char>, bool>) -> bool {
    &&& offloads.dom().contains("gro"@) && !offloads["gro"@]
    &&& offloads.dom().contains("gso"@) && !offloads["gso"@]
    &&& offloads.dom().contains("tso"@) && !offloads["tso"@]
    &&& offloads.dom().contains("lro"@) && !offloads["lro"@]
    &&& offloads.dom().contains("rx"@) && !offloads["rx"@]
    &&& offloads.dom().contains("tx"@) && !offloads["tx"@]
}

/// Nothing but one link and one namespace is different.
pub open spec fn differ_only_in(
    net: Network,
    more: Network,
    interface: Seq<char>,
    namespace: Seq<char>,
) -> bool {
    &&& more.links.dom() == net.links.dom()
    &&& forall|name: Seq<char>|
        name != interface && net.links.dom().contains(name) ==> #[trigger] more.links[name]
            == net.links[name]
    &&& forall|other: Seq<char>|
        other != namespace ==> (#[trigger] more.namespaces.contains(other)
            <==> net.namespaces.contains(other))
    &&& forall|other: Seq<char>|
        other != namespace ==> (#[trigger] more.loopbacks.contains(other)
            <==> net.loopbacks.contains(other))
}

proof fn probes_change_nothing(net: Network, commands: Seq<CommandView>, n: int)
    requires
        0 <= n <= commands.len(),
        forall|i: int| 0 <= i < n ==> (#[trigger] commands[i]).program == "arping"@,
    ensures
        after_first(net, commands, n) == Some(net),
    decreases n,
{
    if n > 0 {
        probes_change_nothing(net, commands, n - 1);
        assert(commands[n - 1].program == "arping"@);
    }
}

proof fn links_are_moved(net: Network, namespace: Seq<char>, interface: Seq<char>, mtu: Seq<char>)
    requires
        is_ready(net, interface, namespace),
    ensures
        after_all(net, move_commands(namespace, interface, mtu)) == Some(
            Network {
                namespaces: net.namespaces.insert(namespace),
                loopbacks: net.loopbacks.insert(namespace),
                links: net.links.insert(
                    interface,
                    Link {
                        place: namespace,
                        up: true,
                        mtu,
                        addresses: Seq::empty(),
                        ..net.links[interface]
                    },
                ),
            },
        ),
{
    words_are_told_apart();
    let list = move_commands(namespace, interface, mtu);
    reveal_with_fuel(after_first, 5);
    let one = Network {
        namespaces: net.namespaces.insert(namespace),
        loopbacks: net.loopbacks.remove(namespace),
        ..net
    };
    assert(after(net, list[0]) == Some(one));
    let link = net.links[interface];
    let moved = Link { place: namespace, up: false, addresses: Seq::empty(), ..link };
    let two = with_link(one, interface, moved);
    assert(list[1].args.subrange(3, 5) =~= seq!["netns"@, namespace]);
    assert(after(one, list[1]) == Some(two));
    let three = Network { loopbacks: two.loopbacks.insert(namespace), ..two };
    let third = list[2].args.subrange(2, 6);
    assert(third =~= seq!["link"@, "set"@, "lo"@, "up"@]);
    assert(third.subrange(3, 4) =~= seq!["up"@]);
    assert(after(two, list[2]) == Some(three));
    let four = with_link(three, interface, Link { mtu, up: true, ..moved });
    let fourth = list[3].args.subrange(2, 8);
    assert(fourth =~= seq!["link"@, "set"@, interface, "mtu"@, mtu, "up"@]);
    assert(fourth.subrange(3, 6) =~= seq!["mtu"@, mtu, "up"@]);
    assert(after(three, list[3]) == Some(four));
    assert(four =~= Network {
        namespaces: net.namespaces.insert(namespace),
        loopbacks: net.loopbacks.insert(namespace),
        links: net.links.insert(
            interface,
            Link { place: namespace, up: true, mtu, addresses: Seq::empty(), ..link },
        ),
    });
}

proof fn addresses_are_given(
    net: Network,
    namespace: Seq<char>,
    interface: Seq<char>,
    addresses: Seq<Seq<char>>,
    commands: Seq<CommandView>,
    n: int,
)
    requires
        is_in(net, interface, namespace),
        net.links[interface].addresses.len() == 0,
        addresses.no_duplicates(),
        0 <= n <= addresses.len(),
        commands.len() == addresses.len(),
        forall|i: int|
            0 <= i < addresses.len() ==> #[trigger] commands[i] == address_command(
                namespace,
                interface,
                addresses[i],
            ),
    ensures
        after_first(net, commands, n) == Some(
            with_link(net, interface, Link { addresses: addresses.take(n), ..net.links[interface] }),
        ),
    decreases n,
{
    let link = net.links[interface];
    if n == 0 {
        assert(addresses.take(0) =~= link.addresses);
        assert(with_link(net, interface, Link { addresses: addresses.take(0), ..link }) =~= net);
    } else {
        words_are_told_apart();
        addresses_are_given(net, namespace, interface, addresses, commands, n - 1);
        let before = with_link(net, interface, Link { addresses: addresses.take(n - 1), ..link });
        let c = commands[n - 1];
        assert(c == address_command(namespace, interface, addresses[n - 1]));
        assert(c.args.subrange(2, 7) =~= seq![
            "address"@,
            "add"@,
            addresses[n - 1],
            "dev"@,
            interface,
        ]);
        assert(!addresses.take(n - 1).contains(addresses[n - 1]));
        assert(addresses.take(n - 1).push(addresses[n - 1]) =~= addresses.take(n));
        assert(with_link(
            before,
            interface,
            Link { addresses: addresses.take(n), ..before.links[interface] },
        ) =~= with_link(net, interface, Link { addresses: addresses.take(n), ..link }));
    }
}

/// The offloads with the first `n` of those that a test must not have switched off.
spec fn switched_off(offloads: Map<Seq<char>, bool>, n: int) -> Map<Seq<char>, bool>
    decreases n,
{
    if n <= 0 {
        offloads
    } else {
        switched_off(offloads, n - 1).insert(disabled_features()[n - 1], false)
    }
}

proof fn offloads_are_switched_off(
    net: Network,
    namespace: Seq<char>,
    interface: Seq<char>,
    commands: Seq<CommandView>,
    n: int,
)
    requires
        is_in(net, interface, namespace),
        0 <= n <= 6,
        commands.len() == 6,
        forall|i: int|
            0 <= i < 6 ==> #[trigger] commands[i] == offload_command(
                namespace,
                interface,
                disabled_features()[i],
            ),
    ensures
        after_first(net, commands, n) == Some(
            with_link(
                net,
                interface,
                Link {
                    offloads: switched_off(net.links[interface].offloads, n),
                    ..net.links[interface]
                },
            ),
        ),
    decreases n,
{
    let link = net.links[interface];
    if n == 0 {
        assert(with_link(net, interface, link) =~= net);
    } else {
        words_are_told_apart();
        offloads_are_switched_off(net, namespace, interface, commands, n - 1);
        let off = switched_off(link.offloads, n - 1);
        let before = with_link(net, interface, Link { offloads: off, ..link });
        assert(commands[n - 1] == offload_command(
            namespace,
            interface,
            disabled_features()[n - 1],
        ));
        assert(with_link(
            before,
            interface,
            Link { offloads: switched_off(link.offloads, n), ..before.links[interface] },
        ) =~= with_link(
            net,
            interface,
            Link { offloads: switched_off(link.offloads, n), ..link },
        ));
    }
}

/// No address of an end occurs twice.
pub proof fn addresses_are_distinct(endpoint: EndpointProfile)
    requires
        pool_fits(endpoint),
        expanded(endpoint) is Ok,
    ensures
        expanded(endpoint)->Ok_0.no_duplicates(),
{
    let list = expanded(endpoint)->Ok_0;
    let cidr = endpoint.start_cidr@;
    let slash = next_char(cidr, '/', 0);
    let start = ipv4_of(cidr.subrange(0, slash))->0;
    let tail = "/"@ + cidr.subrange(slash + 1, cidr.len() as int);
    crate::ip::addresses_are_numbers(cidr.subrange(0, slash));
    assert forall|i: int, j: int| 0 <= i < j < list.len() implies list[i] != list[j] by {
        let a = ipv4_text(start + i);
        let b = ipv4_text(start + j);
        ipv4_text_denotes_address((start + i) as u32);
        ipv4_text_denotes_address((start + j) as u32);
        assert(list[i] =~= a + tail);
        assert(list[j] =~= b + tail);
        if list[i] == list[j] {
            assert(a.len() == b.len());
            assert(a =~= list[i].subrange(0, a.len() as int));
            assert(b =~= list[j].subrange(0, a.len() as int));
        }
    }
}

/// The commands of an end that borrows its link leave the link in the namespace of the end, up,
/// with the MTU of the profile and with exactly the addresses of the end, and where `ethtool` is
/// there without offloads. Nothing else changes.
pub proof fn borrowed_links_are_set_up(
    net: Network,
    endpoint: EndpointProfile,
    namespace: Seq<char>,
    mtu: int,
    arping: bool,
    ethtool: bool,
)
    requires
        is_ready(net, endpoint.interface_name@, namespace),
        pool_fits(endpoint),
        expanded(endpoint) is Ok,
        0 <= mtu <= u64::MAX,
    ensures
        match after_all(net, setup_commands(endpoint, namespace, mtu, arping, ethtool)) {
            Some(more) => {
                let interface = endpoint.interface_name@;
                let link = more.links[interface];
                &&& link.place == namespace
                &&& link.up
                &&& decimal_number(link.mtu, u64::MAX as int) == Some(mtu)
                &&& link.addresses == expanded(endpoint)->Ok_0
                &&& ethtool ==> all_off(link.offloads)
                &&& !ethtool ==> link.offloads == net.links[interface].offloads
                &&& more.namespaces.contains(namespace)
                &&& more.loopbacks.contains(namespace)
                &&& differ_only_in(net, more, interface, namespace)
            },
            None => false,
        },
{
    decimals_denote_their_number(mtu, u64::MAX as int);
    let interface = endpoint.interface_name@;
    let addresses = expanded(endpoint)->Ok_0;
    let probes = if arping {
        Seq::new(addresses.len(), |i: int| probe_command(interface, hosts(endpoint)[i]))
    } else {
        Seq::empty()
    };
    let moves = move_commands(namespace, interface, decimal(mtu));
    let given = Seq::new(
        addresses.len(),
        |i: int| address_command(namespace, interface, addresses[i]),
    );
    let offloads = if ethtool {
        Seq::new(6, |i: int| offload_command(namespace, interface, disabled_features()[i]))
    } else {
        Seq::empty()
    };
    let all = setup_commands(endpoint, namespace, mtu, arping, ethtool);
    assert(all =~= probes + moves + given + offloads);
    one_after_the_other(net, probes + moves + given, offloads);
    one_after_the_other(net, probes + moves, given);
    one_after_the_other(net, probes, moves);
    probes_change_nothing(net, probes, probes.len() as int);
    links_are_moved(net, namespace, interface, decimal(mtu));
    let moved = after_all(net, moves)->0;
    addresses_are_distinct(endpoint);
    addresses_are_given(moved, namespace, interface, addresses, given, addresses.len() as int);
    assert(addresses.take(addresses.len() as int) =~= addresses);
    let ready = after_all(moved, given)->0;
    if ethtool {
        offloads_are_switched_off(ready, namespace, interface, offloads, 6);
        reveal_with_fuel(switched_off, 7);
        reveal_strlit("gro");
        reveal_strlit("gso");
        reveal_strlit("tso");
        reveal_strlit("lro");
        reveal_strlit("rx");
        reveal_strlit("tx");
        assert("gro"@.len() == 3 && "rx"@.len() == 2 && "tx"@.len() == 2);
        assert("gro"@[1] == 'r' && "gso"@[1] == 's' && "tso"@[0] == 't' && "lro"@[0] == 'l');
        assert("gro"@[0] == 'g' && "gso"@[0] == 'g' && "rx"@[0] == 'r' && "tx"@[0] == 't');
    }
    let more = after_all(net, all)->0;
    assert(more.links.dom() =~= net.links.dom());
}

/// The offloads with the first `n` that can be restored as they were, as far as that is known.
spec fn restored(
    offloads: Map<Seq<char>, bool>,
    known: Seq<(Seq<char>, bool)>,
    n: int,
) -> Map<Seq<char>, bool>
    decreases n,
{
    if n <= 0 {
        offloads
    } else {
        let feature = restored_features()[n - 1];
        match flag(known, feature) {
            Some(on) => restored(offloads, known, n - 1).insert(feature, on),
            None => restored(offloads, known, n - 1),
        }
    }
}

proof fn offloads_are_restored(
    net: Network,
    interface: Seq<char>,
    known: Seq<(Seq<char>, bool)>,
    n: int,
)
    requires
        is_in(net, interface, home()),
        0 <= n <= 6,
    ensures
        after_all(net, restore_commands(interface, known, n)) == Some(
            with_link(
                net,
                interface,
                Link {
                    offloads: restored(net.links[interface].offloads, known, n),
                    ..net.links[interface]
                },
            ),
        ),
    decreases n,
{
    let link = net.links[interface];
    if n == 0 {
        assert(with_link(net, interface, link) =~= net);
    } else {
        words_are_told_apart();
        offloads_are_restored(net, interface, known, n - 1);
        let feature = restored_features()[n - 1];
        let before = restore_commands(interface, known, n - 1);
        match flag(known, feature) {
            Some(on) => {
                let c = restore_command(interface, feature, on);
                first_of_longer(net, before, seq![c], before.len() as int);
                assert(before.push(c) =~= before + seq![c]);
                let most = after_all(net, before)->0;
                let back = restored(link.offloads, known, n);
                assert(after(most, c) == Some(
                    with_link(most, interface, Link { offloads: back, ..most.links[interface] }),
                ));
                assert(with_link(
                    most,
                    interface,
                    Link { offloads: back, ..most.links[interface] },
                ) =~= with_link(net, interface, Link { offloads: back, ..link }));
            },
            None => {},
        }
    }
}

proof fn restored_features_are_restored(
    offloads: Map<Seq<char>, bool>,
    known: Seq<(Seq<char>, bool)>,
    n: int,
)
    requires
        0 <= n <= 6,
    ensures
        forall|i: int|
            0 <= i < n && flag(known, #[trigger] restored_features()[i]) is Some ==> restored(
                offloads,
                known,
                n,
            ).dom().contains(restored_features()[i]) && restored(
                offloads,
                known,
                n,
            )[restored_features()[i]] == flag(known, restored_features()[i])->0,
    decreases n,
{
    if n > 0 {
        restored_features_are_restored(offloads, known, n - 1);
    }
}

/// An offload that was known when the link was borrowed is as it was.
pub open spec fn is_as_known(
    offloads: Map<Seq<char>, bool>,
    known: Seq<(Seq<char>, bool)>,
    feature: Seq<char>,
) -> bool {
    match flag(known, feature) {
        Some(on) => offloads.dom().contains(feature) && offloads[feature] == on,
        None => true,
    }
}

/// The commands that undo an end give its link back to the node without addresses, with the state,
/// the MTU and the offloads that it had, as far as these are known, and delete the namespace. Nothing
/// else changes.
pub proof fn borrowed_links_are_given_back(
    net: Network,
    current: InterfaceInventory,
    namespace: Seq<char>,
)
    requires
        current.name@ != "lo"@,
        namespace != home(),
        is_in(net, current.name@, namespace),
        net.namespaces.contains(namespace),
        forall|name: Seq<char>|
            name != current.name@ ==> !#[trigger] is_in(net, name, namespace),
    ensures
        match after_all(net, undo_commands(current, namespace)) {
            Some(more) => {
                let link = more.links[current.name@];
                &&& link.place == home()
                &&& link.up == current.link_up
                &&& link.addresses.len() == 0
                &&& match current.mtu {
                    Some(mtu) => decimal_number(link.mtu, u64::MAX as int) == Some(mtu as int),
                    None => link.mtu == net.links[current.name@].mtu,
                }
                &&& is_as_known(link.offloads, current.offloads@, "gro"@)
                &&& is_as_known(link.offloads, current.offloads@, "gso"@)
                &&& is_as_known(link.offloads, current.offloads@, "tso"@)
                &&& is_as_known(link.offloads, current.offloads@, "lro"@)
                &&& is_as_known(link.offloads, current.offloads@, "rx"@)
                &&& is_as_known(link.offloads, current.offloads@, "tx"@)
                &&& !more.namespaces.contains(namespace)
                &&& differ_only_in(net, more, current.name@, namespace)
            },
            None => false,
        },
{
    words_are_told_apart();
    let interface = current.name@;
    let link = net.links[interface];
    let back = seq![
        command("ip"@, seq!["-n"@, namespace, "link"@, "set"@, interface, "netns"@, "1"@]),
    ];
    let offloads = restore_commands(interface, current.offloads@, 6);
    let mtu = match current.mtu {
        Some(mtu) => seq![
            command("ip"@, seq!["link"@, "set"@, interface, "mtu"@, decimal(mtu as int)]),
        ],
        None => Seq::empty(),
    };
    let word = if current.link_up {
        "up"@
    } else {
        "down"@
    };
    let rest = seq![
        command("ip"@, seq!["link"@, "set"@, interface, word]),
        delete_command(namespace),
    ];
    let all = undo_commands(current, namespace);
    assert(all =~= back + offloads + mtu + rest);
    one_after_the_other(net, back + offloads + mtu, rest);
    one_after_the_other(net, back + offloads, mtu);
    one_after_the_other(net, back, offloads);
    reveal_with_fuel(after_first, 3);
    let args = back[0].args.subrange(2, 7);
    assert(args =~= seq!["link"@, "set"@, interface, "netns"@, "1"@]);
    assert(args.subrange(3, 5) =~= seq!["netns"@, "1"@]);
    let one = with_link(
        net,
        interface,
        Link { place: home(), up: false, addresses: Seq::empty(), ..link },
    );
    assert(after(net, back[0]) == Some(one));
    assert(after_all(net, back) == Some(one));
    offloads_are_restored(one, interface, current.offloads@, 6);
    restored_features_are_restored(link.offloads, current.offloads@, 6);
    let two = after_all(one, offloads)->0;
    let known = two.links[interface];
    let three = match current.mtu {
        Some(n) => {
            decimals_denote_their_number(n as int, u64::MAX as int);
            assert(mtu[0].args.subrange(3, 5) =~= seq!["mtu"@, decimal(n as int)]);
            let more = with_link(two, interface, Link { mtu: decimal(n as int), ..known });
            assert(after(two, mtu[0]) == Some(more));
            more
        },
        None => two,
    };
    assert(after_all(two, mtu) == Some(three));
    assert(rest[0].args.subrange(3, 4) =~= seq![word]);
    let four = with_link(
        three,
        interface,
        Link { up: current.link_up, ..three.links[interface] },
    );
    assert(after(three, rest[0]) == Some(four));
    assert forall|name: Seq<char>| !#[trigger] is_in(four, name, namespace) by {
        assert(name != interface ==> !is_in(net, name, namespace));
    }
    let five = Network {
        namespaces: four.namespaces.remove(namespace),
        loopbacks: four.loopbacks.remove(namespace),
        ..four
    };
    assert(after(four, rest[1]) == Some(five));
    assert(after_all(three, rest) == Some(five));
    assert(five.links.dom() =~= net.links.dom());
    let features = restored_features();
    assert(features[0] == "tx"@ && features[1] == "rx"@ && features[2] == "tso"@ && features[3]
        == "gso"@ && features[4] == "gro"@ && features[5] == "lro"@);
}

/// Every link is the node's own or in a namespace that there is.
pub open spec fn is_sound(net: Network) -> bool {
    forall|name: Seq<char>|
        net.links.dom().contains(name) ==> (#[trigger] net.links[name]).place == home()
            || net.namespaces.contains(net.links[name].place)
}

/// A link is set up as an end of a plan says.
pub open spec fn is_set_up(net: Network, end: EndpointPlanView, mtu: int) -> bool {
    &&& is_in(net, end.interface, end.namespace)
    &&& net.links[end.interface].up
    &&& decimal_number(net.links[end.interface].mtu, u64::MAX as int) == Some(mtu)
    &&& net.links[end.interface].addresses == end.addresses
}

/// A link is the node's own and as it was known to be, without addresses.
pub open spec fn is_given_back(net: Network, current: InterfaceInventory) -> bool {
    let link = net.links[current.name@];
    &&& is_in(net, current.name@, home())
    &&& link.up == current.link_up
    &&& link.addresses.len() == 0
    &&& current.mtu is Some ==> decimal_number(link.mtu, u64::MAX as int) == Some(
        current.mtu->0 as int,
    )
    &&& is_as_known(link.offloads, current.offloads@, "gro"@)
    &&& is_as_known(link.offloads, current.offloads@, "gso"@)
    &&& is_as_known(link.offloads, current.offloads@, "tso"@)
    &&& is_as_known(link.offloads, current.offloads@, "lro"@)
    &&& is_as_known(link.offloads, current.offloads@, "rx"@)
    &&& is_as_known(link.offloads, current.offloads@, "tx"@)
}

/// An end of a profile can be set up where it is on the node.
pub open spec fn can_be_set_up(
    net: Network,
    endpoint: EndpointProfile,
    node: Seq<char>,
    revision: Seq<char>,
    role: Seq<char>,
) -> bool {
    endpoint.node_id@ == node ==> {
        &&& is_ready(net, endpoint.interface_name@, namespace_of(revision, role))
        &&& pool_fits(endpoint)
    }
}

proof fn ends_are_apart(revision: Seq<char>)
    ensures
        namespace_of(revision, "client"@) != namespace_of(revision, "server"@),
{
    reveal_strlit("client");
    reveal_strlit("server");
    let a = namespace_of(revision, "client"@);
    let b = namespace_of(revision, "server"@);
    assert(a.last() == 't');
    assert(b.last() == 'r');
}

proof fn interfaces_are_found_by_name(
    interfaces: Seq<InterfaceInventory>,
    name: Seq<char>,
    from: int,
)
    requires
        0 <= from,
    ensures
        match find_interface(interfaces, name, from) {
            Some(at) => from <= at < interfaces.len() && interfaces[at].name@ == name,
            None => true,
        },
    decreases interfaces.len() - from,
{
    if from < interfaces.len() && interfaces[from].name@ != name {
        interfaces_are_found_by_name(interfaces, name, from + 1);
    }
}

/// What one end does, and what undoes it.
proof fn end_is_set_up(
    net: Network,
    role: Seq<char>,
    endpoint: EndpointProfile,
    how: Provisioning,
    node: Seq<char>,
    revision: Seq<char>,
    inventory: NodeInventory,
)
    requires
        how.policy == ProvisioningPolicy::ManagedNamespace,
        endpoint.node_id@ == node,
        end_step(role, endpoint, how, node, revision, inventory) is Ok,
        can_be_set_up(net, endpoint, node, revision, role),
    ensures
        ({
            let step = end_step(role, endpoint, how, node, revision, inventory)->Ok_0;
            let namespace = namespace_of(revision, role);
            &&& step.endpoint.interface == endpoint.interface_name@
            &&& step.endpoint.namespace == namespace
            &&& match after_all(net, step.commands) {
                Some(more) => is_set_up(more, step.endpoint, how.mtu as int)
                    && more.namespaces.contains(namespace) && differ_only_in(
                    net,
                    more,
                    endpoint.interface_name@,
                    namespace,
                ),
                None => false,
            }
        }),
{
    let namespace = namespace_of(revision, role);
    borrowed_links_are_set_up(
        net,
        endpoint,
        namespace,
        how.mtu as int,
        flag(inventory.capabilities@, "arping"@) == Some(true),
        flag(inventory.capabilities@, "ethtool"@) == Some(true),
    );
}

/// What is known of the interface of an end.
pub open spec fn known_link(inventory: NodeInventory, interface: Seq<char>) -> InterfaceInventory {
    inventory.interfaces@[find_interface(inventory.interfaces@, interface, 0)->0]
}

proof fn end_is_given_back(
    net: Network,
    role: Seq<char>,
    endpoint: EndpointProfile,
    how: Provisioning,
    node: Seq<char>,
    revision: Seq<char>,
    inventory: NodeInventory,
)
    requires
        how.policy == ProvisioningPolicy::ManagedNamespace,
        endpoint.node_id@ == node,
        endpoint.interface_name@ != "lo"@,
        end_step(role, endpoint, how, node, revision, inventory) is Ok,
        namespace_of(revision, role) != home(),
        is_in(net, endpoint.interface_name@, namespace_of(revision, role)),
        net.namespaces.contains(namespace_of(revision, role)),
        forall|name: Seq<char>|
            name != endpoint.interface_name@ ==> !#[trigger] is_in(
                net,
                name,
                namespace_of(revision, role),
            ),
    ensures
        ({
            let step = end_step(role, endpoint, how, node, revision, inventory)->Ok_0;
            let namespace = namespace_of(revision, role);
            match after_all(net, step.rollback_commands) {
                Some(more) => is_given_back(more, known_link(inventory, endpoint.interface_name@))
                    && !more.namespaces.contains(namespace) && differ_only_in(
                    net,
                    more,
                    endpoint.interface_name@,
                    namespace,
                ),
                None => false,
            }
        }),
{
    interfaces_are_found_by_name(inventory.interfaces@, endpoint.interface_name@, 0);
    let current = known_link(inventory, endpoint.interface_name@);
    borrowed_links_are_given_back(net, current, namespace_of(revision, role));
}

/// Carrying out a plan sets up all its ends: each has its link in its namespace, up, with the MTU of
/// the profile and exactly the planned addresses.
pub proof fn plans_set_up_their_ends(
    node: Seq<char>,
    revision: Seq<char>,
    draft: NetworkProfileDraft,
    inventory: NodeInventory,
    net: Network,
)
    requires
        draft.policy == ProvisioningPolicy::ManagedNamespace,
        plan_of(node, revision, draft, inventory) is Ok,
        can_be_set_up(net, draft.client_endpoint, node, revision, "client"@),
        can_be_set_up(net, draft.server_endpoint, node, revision, "server"@),
        draft.client_endpoint.node_id@ == node && draft.server_endpoint.node_id@ == node
            ==> draft.client_endpoint.interface_name@ != draft.server_endpoint.interface_name@,
    ensures
        ({
            let plan = plan_of(node, revision, draft, inventory)->Ok_0;
            match after_all(net, plan.commands) {
                Some(more) => forall|i: int|
                    0 <= i < plan.endpoints.len() ==> is_set_up(
                        more,
                        #[trigger] plan.endpoints[i],
                        draft.mtu as int,
                    ),
                None => false,
            }
        }),
{
    let how = draft.how();
    let plan = plan_of(node, revision, draft, inventory)->Ok_0;
    let a = draft.client_endpoint;
    let b = draft.server_endpoint;
    ends_are_apart(revision);
    let one = if a.node_id@ == node {
        end_is_set_up(net, "client"@, a, how, node, revision, inventory);
        let step = end_step("client"@, a, how, node, revision, inventory)->Ok_0;
        let more = after_all(net, step.commands)->0;
        let space = namespace_of(revision, "server"@);
        assert(more.namespaces.contains(space) <==> net.namespaces.contains(space));
        assert(b.node_id@ == node ==> more.links[b.interface_name@] == net.links[b.interface_name@]);
        more
    } else {
        net
    };
    if b.node_id@ == node {
        let step = end_step("server"@, b, how, node, revision, inventory)->Ok_0;
        end_is_set_up(one, "server"@, b, how, node, revision, inventory);
        let two = after_all(one, step.commands)->0;
        if a.node_id@ == node {
            let first = end_step("client"@, a, how, node, revision, inventory)->Ok_0;
            one_after_the_other(net, first.commands, step.commands);
            assert(plan.commands =~= first.commands + step.commands);
            assert(two.links[a.interface_name@] == one.links[a.interface_name@]);
            assert(plan.endpoints =~= seq![first.endpoint, step.endpoint]);
        } else {
            assert(plan.commands =~= step.commands);
            assert(plan.endpoints =~= seq![step.endpoint]);
        }
    } else if a.node_id@ == node {
        let first = end_step("client"@, a, how, node, revision, inventory)->Ok_0;
        assert(plan.commands =~= first.commands);
        assert(plan.endpoints =~= seq![first.endpoint]);
    } else {
        assert(plan.commands =~= Seq::empty());
    }
}

/// Rolling back what a plan has set up gives every link back as it was known to be, and leaves the
/// namespaces as they were.
pub proof fn rolled_back_plans_leave_no_trace(
    node: Seq<char>,
    revision: Seq<char>,
    draft: NetworkProfileDraft,
    inventory: NodeInventory,
    net: Network,
)
    requires
        draft.policy == ProvisioningPolicy::ManagedNamespace,
        plan_of(node, revision, draft, inventory) is Ok,
        is_sound(net),
        can_be_set_up(net, draft.client_endpoint, node, revision, "client"@),
        can_be_set_up(net, draft.server_endpoint, node, revision, "server"@),
        draft.client_endpoint.node_id@ == node && draft.server_endpoint.node_id@ == node
            ==> draft.client_endpoint.interface_name@ != draft.server_endpoint.interface_name@,
    ensures
        ({
            let plan = plan_of(node, revision, draft, inventory)->Ok_0;
            match after_all(net, plan.commands + plan.rollback_commands) {
                Some(more) => {
                    &&& more.namespaces == net.namespaces
                    &&& more.links.dom() == net.links.dom()
                    &&& draft.client_endpoint.node_id@ == node ==> is_given_back(
                        more,
                        known_link(inventory, draft.client_endpoint.interface_name@),
                    )
                    &&& draft.server_endpoint.node_id@ == node ==> is_given_back(
                        more,
                        known_link(inventory, draft.server_endpoint.interface_name@),
                    )
                },
                None => false,
            }
        }),
{
    let how = draft.how();
    let plan = plan_of(node, revision, draft, inventory)->Ok_0;
    let a = draft.client_endpoint;
    let b = draft.server_endpoint;
    let here = namespace_of(revision, "client"@);
    let there = namespace_of(revision, "server"@);
    ends_are_apart(revision);
    interfaces_are_found_by_name(inventory.interfaces@, a.interface_name@, 0);
    interfaces_are_found_by_name(inventory.interfaces@, b.interface_name@, 0);
    let first = end_step("client"@, a, how, node, revision, inventory)->Ok_0;
    let second = end_step("server"@, b, how, node, revision, inventory)->Ok_0;
    one_after_the_other(net, plan.commands, plan.rollback_commands);
    if a.node_id@ == node && b.node_id@ == node {
        assert(plan.commands =~= first.commands + second.commands);
        assert(plan.rollback_commands =~= first.rollback_commands + second.rollback_commands);
        one_after_the_other(net, first.commands, second.commands);
        end_is_set_up(net, "client"@, a, how, node, revision, inventory);
        let one = after_all(net, first.commands)->0;
        assert(one.namespaces.contains(there) <==> net.namespaces.contains(there));
        assert(one.links[b.interface_name@] == net.links[b.interface_name@]);
        end_is_set_up(one, "server"@, b, how, node, revision, inventory);
        let two = after_all(one, second.commands)->0;
        assert(two.links[a.interface_name@] == one.links[a.interface_name@]);
        one_after_the_other(two, first.rollback_commands, second.rollback_commands);
        assert(two.namespaces.contains(here));
        assert forall|name: Seq<char>| name != a.interface_name@ implies !#[trigger] is_in(
            two,
            name,
            here,
        ) by {
            if two.links.dom().contains(name) && name != b.interface_name@ {
                assert(two.links[name] == one.links[name]);
                assert(one.links[name] == net.links[name]);
            }
        }
        end_is_given_back(two, "client"@, a, how, node, revision, inventory);
        let three = after_all(two, first.rollback_commands)->0;
        assert(three.links[b.interface_name@] == two.links[b.interface_name@]);
        assert(three.namespaces.contains(there));
        assert forall|name: Seq<char>| name != b.interface_name@ implies !#[trigger] is_in(
            three,
            name,
            there,
        ) by {
            if three.links.dom().contains(name) && name != a.interface_name@ {
                assert(three.links[name] == two.links[name]);
                assert(two.links[name] == one.links[name]);
                assert(one.links[name] == net.links[name]);
            }
        }
        end_is_given_back(three, "server"@, b, how, node, revision, inventory);
        let four = after_all(three, second.rollback_commands)->0;
        assert(four.links[a.interface_name@] == three.links[a.interface_name@]);
        assert(four.namespaces =~= net.namespaces);
    } else if a.node_id@ == node {
        assert(plan.commands =~= first.commands);
        assert(plan.rollback_commands =~= first.rollback_commands);
        end_is_set_up(net, "client"@, a, how, node, revision, inventory);
        let one = after_all(net, first.commands)->0;
        assert forall|name: Seq<char>| name != a.interface_name@ implies !#[trigger] is_in(
            one,
            name,
            here,
        ) by {
            if one.links.dom().contains(name) {
                assert(one.links[name] == net.links[name]);
            }
        }
        end_is_given_back(one, "client"@, a, how, node, revision, inventory);
        let two = after_all(one, first.rollback_commands)->0;
        assert(two.namespaces =~= net.namespaces);
    } else if b.node_id@ == node {
        assert(plan.commands =~= second.commands);
        assert(plan.rollback_commands =~= second.rollback_commands);
        end_is_set_up(net, "server"@, b, how, node, revision, inventory);
        let one = after_all(net, second.commands)->0;
        assert forall|name: Seq<char>| name != b.interface_name@ implies !#[trigger] is_in(
            one,
            name,
            there,
        ) by {
            if one.links.dom().contains(name) {
                assert(one.links[name] == net.links[name]);
            }
        }
        end_is_given_back(one, "server"@, b, how, node, revision, inventory);
        let two = after_all(one, second.rollback_commands)->0;
        assert(two.namespaces =~= net.namespaces);
    } else {
        assert(plan.commands =~= Seq::empty());
        assert(plan.rollback_commands =~= Seq::empty());
    }
}

/// The addresses of an end follow one another: the first is the one that the profile names, each has
/// the prefix that stands there, and there are as many as the profile asks for. What is probed are the
/// same addresses without the prefix.
pub proof fn addresses_follow_one_another(endpoint: EndpointProfile, start: u32, prefix: Seq<char>, i: int)
    requires
        endpoint.start_cidr@ == ipv4_text(start as int) + "/"@ + prefix,
        0 <= i < endpoint.count,
        start + endpoint.count <= u32::MAX + 1,
    ensures
        expanded(endpoint) is Ok,
        expanded(endpoint)->Ok_0.len() == endpoint.count,
        ipv4_of(host_part(expanded(endpoint)->Ok_0[i])) == Some(start + i),
        expanded(endpoint)->Ok_0[i] == host_part(expanded(endpoint)->Ok_0[i]) + "/"@ + prefix,
        hosts(endpoint)[i] == host_part(expanded(endpoint)->Ok_0[i]),
{
    reveal_strlit("/");
    let cidr = endpoint.start_cidr@;
    let first = ipv4_text(start as int);
    let at = first.len() as int;
    assert(cidr =~= first + seq!['/'] + prefix);
    address_text_has_no_slash(start);
    assert forall|k: int| 0 <= k < at implies cidr[k] != '/' by {
        assert(cidr[k] == first[k]);
    }
    next_char_at(cidr, '/', 0, at);
    assert(cidr.subrange(0, at) =~= first);
    assert(cidr.subrange(at + 1, cidr.len() as int) =~= prefix);
    ipv4_text_denotes_address(start);
    let address = (start + i) as u32;
    let text = ipv4_text(start + i);
    let n = text.len() as int;
    ipv4_text_denotes_address(address);
    address_text_has_no_slash(address);
    let whole = expanded(endpoint)->Ok_0[i];
    assert(whole =~= text + seq!['/'] + prefix);
    assert forall|k: int| 0 <= k < n implies whole[k] != '/' by {
        assert(whole[k] == text[k]);
    }
    next_char_at(whole, '/', 0, n);
    assert(host_part(whole) =~= text);
}

} // verus!
