//! What the tools of the system say of a node is what is known of it.
use crate::agent::counts::{column_of, counts_since, line_with, table_count, SystemCounts};
use crate::agent::inventory::{
    address_of, addresses_of, distinct_flags, flag, interface_of, labelled_line, named_interface,
    offload_of, offloads_of, route_devices, set_flags_are_found, with_addresses, with_known,
    InterfaceView,
};
use crate::agent::telemetry::no_counts;
use crate::json::{member, member_at, text_member, JsonView};
use crate::text::{
    decimal, decimals_denote_their_number, is_white, lines, stands_at, trimmed_start, word_end,
    word_start, words,
};
use vstd::prelude::*;

verus! {

/// A text of white space.
pub open spec fn is_indent(text: Seq<char>) -> bool {
    forall|i: int| 0 <= i < text.len() ==> is_white(#[trigger] text[i])
}

/// A word: a text without white space.
pub open spec fn is_word(text: Seq<char>) -> bool {
    text.len() > 0 && forall|i: int| 0 <= i < text.len() ==> !is_white(#[trigger] text[i])
}

proof fn word_starts_at(text: Seq<char>, from: int, at: int)
    requires
        0 <= from <= at < text.len(),
        forall|i: int| from <= i < at ==> is_white(#[trigger] text[i]),
        !is_white(text[at]),
    ensures
        word_start(text, from) == at,
    decreases at - from,
{
    if from < at {
        word_starts_at(text, from + 1, at);
    }
}

proof fn word_ends_at(text: Seq<char>, from: int, at: int)
    requires
        0 <= from <= at <= text.len(),
        forall|i: int| from <= i < at ==> !is_white(#[trigger] text[i]),
        at < text.len() ==> is_white(text[at]),
    ensures
        word_end(text, from) == at,
    decreases at - from,
{
    if from < at {
        word_ends_at(text, from + 1, at);
    }
}

proof fn indents_are_taken_off(indent: Seq<char>, text: Seq<char>)
    requires
        is_indent(indent),
        text.len() > 0,
        !is_white(text[0]),
    ensures
        trimmed_start(indent + text) == text,
    decreases indent.len(),
{
    let all = indent + text;
    if indent.len() > 0 {
        let rest = indent.subrange(1, indent.len() as int);
        assert(all[0] == indent[0]);
        assert(all.subrange(1, all.len() as int) =~= rest + text);
        assert forall|i: int| 0 <= i < rest.len() implies is_white(#[trigger] rest[i]) by {
            assert(rest[i] == indent[i + 1]);
        }
        indents_are_taken_off(rest, text);
    } else {
        assert(all =~= text);
    }
}

/// A line of a listing of settings: a label and a word, each behind white space, and what is said
/// of it.
pub open spec fn setting_line(
    indent: Seq<char>,
    label: Seq<char>,
    space: Seq<char>,
    word: Seq<char>,
    note: Seq<char>,
) -> Seq<char> {
    indent + label + space + word + note
}

/// A setting is read as it is listed: it is on where the word behind its label says so, and on no
/// other word.
pub proof fn settings_are_read(
    raw: Seq<char>,
    i: int,
    indent: Seq<char>,
    label: Seq<char>,
    space: Seq<char>,
    word: Seq<char>,
    note: Seq<char>,
)
    requires
        0 <= i < lines(raw).len(),
        lines(raw)[i] == setting_line(indent, label, space, word, note),
        is_indent(indent),
        is_indent(space),
        space.len() > 0,
        is_word(label),
        is_word(word),
        note.len() > 0 ==> is_white(note[0]),
        forall|j: int|
            0 <= j < i ==> !stands_at(trimmed_start(#[trigger] lines(raw)[j]), label, 0),
    ensures
        offload_of(raw, label) == Some(word == seq!['o', 'n']),
{
    reveal_strlit("on");
    assert("on"@ =~= seq!['o', 'n']);
    let line = setting_line(indent, label, space, word, note);
    let a = indent.len() as int;
    let b = a + label.len();
    let c = b + space.len();
    let d = c + word.len();
    assert forall|k: int| 0 <= k < a implies is_white(#[trigger] line[k]) by {
        assert(line[k] == indent[k]);
    }
    assert forall|k: int| a <= k < b implies !is_white(#[trigger] line[k]) by {
        assert(line[k] == label[k - a]);
    }
    assert forall|k: int| b <= k < c implies is_white(#[trigger] line[k]) by {
        assert(line[k] == space[k - b]);
    }
    assert forall|k: int| c <= k < d implies !is_white(#[trigger] line[k]) by {
        assert(line[k] == word[k - c]);
    }
    if d < line.len() {
        assert(line[d] == note[0]);
    }
    word_starts_at(line, 0, a);
    assert(is_white(line[b]));
    word_ends_at(line, a, b);
    word_starts_at(line, b, c);
    word_ends_at(line, c, d);
    assert(line.subrange(c, d) =~= word);
    let rest = label + space + word + note;
    assert(line =~= indent + rest);
    assert(rest[0] == label[0]);
    indents_are_taken_off(indent, rest);
    assert(rest.subrange(0, label.len() as int) =~= label);
    line_is_found(lines(raw), label, 0, i);
}

proof fn line_is_found(list: Seq<Seq<char>>, label: Seq<char>, from: int, i: int)
    requires
        0 <= from <= i < list.len(),
        stands_at(trimmed_start(list[i]), label, 0),
        forall|j: int| from <= j < i ==> !stands_at(trimmed_start(#[trigger] list[j]), label, 0),
    ensures
        labelled_line(list, label, from) == Some(list[i]),
    decreases i - from,
{
    if from < i {
        assert(!stands_at(trimmed_start(list[from]), label, 0));
        line_is_found(list, label, from + 1, i);
    }
}

proof fn known_flags_are_found(
    entries: Seq<(Seq<char>, bool)>,
    name: Seq<char>,
    value: Option<bool>,
    other: Seq<char>,
)
    requires
        distinct_flags(entries),
    ensures
        distinct_flags(with_known(entries, name, value)),
        value is Some ==> flag(with_known(entries, name, value), name) == value,
        value is None ==> flag(with_known(entries, name, value), name) == flag(entries, name),
        other != name ==> flag(with_known(entries, name, value), other) == flag(entries, other),
{
    if value is Some {
        set_flags_are_found(entries, name, value->0, other);
    }
}

/// Each setting of an interface is that of the feature whose short name it has, and a setting that is
/// not listed is not known.
pub proof fn settings_have_their_names(raw: Seq<char>)
    ensures
        flag(offloads_of(raw), "rx"@) == offload_of(raw, "rx-checksumming:"@),
        flag(offloads_of(raw), "tx"@) == offload_of(raw, "tx-checksumming:"@),
        flag(offloads_of(raw), "tso"@) == offload_of(raw, "tcp-segmentation-offload:"@),
        flag(offloads_of(raw), "gso"@) == offload_of(raw, "generic-segmentation-offload:"@),
        flag(offloads_of(raw), "gro"@) == offload_of(raw, "generic-receive-offload:"@),
        flag(offloads_of(raw), "lro"@) == offload_of(raw, "large-receive-offload:"@),
{
    let none = Seq::<(Seq<char>, bool)>::empty();
    short_names_differ();
    assert forall|other: Seq<char>| #[trigger] flag(none, other) is None by {}
    let gro = with_known(none, "gro"@, offload_of(raw, "generic-receive-offload:"@));
    let gso = with_known(gro, "gso"@, offload_of(raw, "generic-segmentation-offload:"@));
    let lro = with_known(gso, "lro"@, offload_of(raw, "large-receive-offload:"@));
    let rx = with_known(lro, "rx"@, offload_of(raw, "rx-checksumming:"@));
    let tso = with_known(rx, "tso"@, offload_of(raw, "tcp-segmentation-offload:"@));
    assert(flag(none, "gro"@) is None && flag(none, "gso"@) is None && flag(none, "lro"@) is None
        && flag(none, "rx"@) is None && flag(none, "tso"@) is None && flag(none, "tx"@) is None);
    flags_step(none, "gro"@, offload_of(raw, "generic-receive-offload:"@));
    flags_step(gro, "gso"@, offload_of(raw, "generic-segmentation-offload:"@));
    flags_step(gso, "lro"@, offload_of(raw, "large-receive-offload:"@));
    flags_step(lro, "rx"@, offload_of(raw, "rx-checksumming:"@));
    flags_step(rx, "tso"@, offload_of(raw, "tcp-segmentation-offload:"@));
    flags_step(tso, "tx"@, offload_of(raw, "tx-checksumming:"@));
}

proof fn flags_step(entries: Seq<(Seq<char>, bool)>, name: Seq<char>, value: Option<bool>)
    requires
        distinct_flags(entries),
    ensures
        distinct_flags(with_known(entries, name, value)),
        flag(entries, name) is None ==> flag(with_known(entries, name, value), name) == value,
        forall|other: Seq<char>|
            other != name ==> #[trigger] flag(with_known(entries, name, value), other) == flag(
                entries,
                other,
            ),
{
    known_flags_are_found(entries, name, value, name);
    assert forall|other: Seq<char>| other != name implies #[trigger] flag(
        with_known(entries, name, value),
        other,
    ) == flag(entries, other) by {
        known_flags_are_found(entries, name, value, other);
    }
}

proof fn short_names_differ()
    ensures
        "rx"@ != "tx"@,
        "rx"@.len() == 2,
        "tx"@.len() == 2,
        "tso"@.len() == 3 && "gso"@.len() == 3 && "gro"@.len() == 3 && "lro"@.len() == 3,
        "tso"@ != "gso"@ && "tso"@ != "gro"@ && "tso"@ != "lro"@,
        "gso"@ != "gro"@ && "gso"@ != "lro"@ && "gro"@ != "lro"@,
{
    reveal_strlit("rx");
    reveal_strlit("tx");
    reveal_strlit("tso");
    reveal_strlit("gso");
    reveal_strlit("gro");
    reveal_strlit("lro");
    assert("rx"@[0] != "tx"@[0]);
    assert("tso"@[0] != "gso"@[0] && "tso"@[0] != "gro"@[0] && "tso"@[0] != "lro"@[0]);
    assert("gso"@[1] != "gro"@[1] && "gso"@[0] != "lro"@[0] && "gro"@[0] != "lro"@[0]);
}

/// A value has a member and none of the same name before it.
pub open spec fn has_member(value: JsonView, name: Seq<char>, found: JsonView) -> bool {
    &&& value is Object
    &&& exists|i: int|
        {
            &&& 0 <= i < value->Object_0.len()
            &&& #[trigger] value->Object_0[i] == (name, found)
            &&& forall|j: int| 0 <= j < i ==> (#[trigger] value->Object_0[j]).0 != name
        }
}

proof fn members_are_found(value: JsonView, name: Seq<char>, found: JsonView)
    requires
        has_member(value, name, found),
    ensures
        member(value, name) == Some(found),
{
    let members = value->Object_0;
    let i = choose|i: int|
        {
            &&& 0 <= i < members.len()
            &&& #[trigger] members[i] == (name, found)
            &&& forall|j: int| 0 <= j < i ==> (#[trigger] members[j]).0 != name
        };
    member_is_at(members, name, 0, i);
}

proof fn member_is_at(members: Seq<(Seq<char>, JsonView)>, name: Seq<char>, from: int, i: int)
    requires
        0 <= from <= i < members.len(),
        members[i].0 == name,
        forall|j: int| from <= j < i ==> (#[trigger] members[j]).0 != name,
    ensures
        member_at(members, name, from) == Some(i),
    decreases i - from,
{
    if from < i {
        assert(members[from].0 != name);
        member_is_at(members, name, from + 1, i);
    }
}

/// An interface is known under its name, with its hardware address, its greatest packet, its state,
/// the bridge that it belongs to and its kind, and is up where its flags say so.
pub proof fn links_are_read(
    link: JsonView,
    name: Seq<char>,
    mac: Seq<char>,
    mtu: u64,
    state: Seq<char>,
    master: Seq<char>,
    info: JsonView,
    kind: Seq<char>,
    flags: Seq<JsonView>,
)
    requires
        has_member(link, "ifname"@, JsonView::Text(name)),
        has_member(link, "address"@, JsonView::Text(mac)),
        has_member(link, "mtu"@, JsonView::Unsigned(mtu)),
        mtu < 0x1_0000_0000,
        has_member(link, "operstate"@, JsonView::Text(state)),
        has_member(link, "master"@, JsonView::Text(master)),
        has_member(link, "linkinfo"@, info),
        has_member(info, "info_kind"@, JsonView::Text(kind)),
        has_member(link, "flags"@, JsonView::Array(flags)),
    ensures
        ({
            let found = interface_of(link);
            &&& found.name == name
            &&& found.mac == Some(mac)
            &&& found.mtu == Some(mtu as int)
            &&& found.state == Some(state)
            &&& found.master == Some(master)
            &&& found.kind == Some(kind)
            &&& found.addresses.len() == 0
            &&& found.offloads.len() == 0
            &&& found.link_up <==> exists|i: int|
                0 <= i < flags.len() && #[trigger] flags[i] == JsonView::Text("UP"@)
        }),
{
    members_are_found(link, "ifname"@, JsonView::Text(name));
    members_are_found(link, "address"@, JsonView::Text(mac));
    members_are_found(link, "mtu"@, JsonView::Unsigned(mtu));
    members_are_found(link, "operstate"@, JsonView::Text(state));
    members_are_found(link, "master"@, JsonView::Text(master));
    members_are_found(link, "linkinfo"@, info);
    members_are_found(info, "info_kind"@, JsonView::Text(kind));
    members_are_found(link, "flags"@, JsonView::Array(flags));
}

/// An address is known with the length of its prefix.
pub proof fn addresses_are_read(entry: JsonView, local: Seq<char>, length: u64)
    requires
        has_member(entry, "local"@, JsonView::Text(local)),
        has_member(entry, "prefixlen"@, JsonView::Unsigned(length)),
    ensures
        address_of(entry) == Some(local + seq!['/'] + decimal(length as int)),
{
    reveal_strlit("/");
    assert("/"@ =~= seq!['/']);
    members_are_found(entry, "local"@, JsonView::Text(local));
    members_are_found(entry, "prefixlen"@, JsonView::Unsigned(length));
}

proof fn interface_is_named(list: Seq<InterfaceView>, name: Seq<char>, from: int, k: int)
    requires
        0 <= from <= k < list.len(),
        list[k].name == name,
        forall|j: int| from <= j < k ==> (#[trigger] list[j]).name != name,
    ensures
        named_interface(list, name, from) == Some(k),
    decreases k - from,
{
    if from < k {
        assert(list[from].name != name);
        interface_is_named(list, name, from + 1, k);
    }
}

/// Addresses belong to the interface that they are listed for: it has them and stays the same
/// otherwise, and no other interface changes.
pub proof fn addresses_belong_to_their_interface(
    list: Seq<InterfaceView>,
    entries: Seq<JsonView>,
    entry: JsonView,
    name: Seq<char>,
    info: Seq<JsonView>,
    k: int,
)
    requires
        has_member(entry, "ifname"@, JsonView::Text(name)),
        has_member(entry, "addr_info"@, JsonView::Array(info)),
        ({
            let before = with_addresses(list, entries, entries.len() as int);
            &&& 0 <= k < before.len()
            &&& before[k].name == name
            &&& forall|j: int| 0 <= j < k ==> (#[trigger] before[j]).name != name
        }),
    ensures
        ({
            let before = with_addresses(list, entries, entries.len() as int);
            let after = with_addresses(list, entries.push(entry), entries.len() as int + 1);
            &&& after.len() == before.len()
            &&& after[k] == InterfaceView {
                addresses: addresses_of(info, info.len() as int),
                ..before[k]
            }
            &&& forall|j: int| 0 <= j < before.len() && j != k ==> #[trigger] after[j] == before[j]
        }),
{
    let n = entries.len() as int;
    earlier_addresses_stay(list, entries, entry, n);
    let before = with_addresses(list, entries, n);
    assert(entries.push(entry)[n] == entry);
    members_are_found(entry, "ifname"@, JsonView::Text(name));
    members_are_found(entry, "addr_info"@, JsonView::Array(info));
    interface_is_named(before, name, 0, k);
}

proof fn earlier_addresses_stay(
    list: Seq<InterfaceView>,
    entries: Seq<JsonView>,
    entry: JsonView,
    n: int,
)
    requires
        0 <= n <= entries.len(),
    ensures
        with_addresses(list, entries.push(entry), n) == with_addresses(list, entries, n),
    decreases n,
{
    if n > 0 {
        earlier_addresses_stay(list, entries, entry, n - 1);
        assert(entries.push(entry)[n - 1] == entries[n - 1]);
    }
}

/// Every address that is listed is known, and no other.
pub proof fn all_addresses_are_known(entries: Seq<JsonView>, n: int, address: Seq<char>)
    requires
        0 <= n <= entries.len(),
    ensures
        addresses_of(entries, n).contains(address) <==> exists|i: int|
            0 <= i < n && address_of(#[trigger] entries[i]) == Some(address),
    decreases n,
{
    if n > 0 {
        all_addresses_are_known(entries, n - 1, address);
        let before = addresses_of(entries, n - 1);
        let after = addresses_of(entries, n);
        match address_of(entries[n - 1]) {
            Some(last) => {
                assert(after == before.push(last));
                assert(after[before.len() as int] == last);
                if before.contains(address) {
                    let k = choose|k: int| 0 <= k < before.len() && before[k] == address;
                    assert(after[k] == address);
                }
                if after.contains(address) && address != last {
                    let k = choose|k: int| 0 <= k < after.len() && after[k] == address;
                    assert(before[k] == address);
                }
            },
            None => {},
        }
    }
}

/// Exactly the interfaces that some default route uses are protected.
pub proof fn route_devices_are_protected(routes: Seq<JsonView>, n: int, name: Seq<char>)
    requires
        0 <= n <= routes.len(),
    ensures
        route_devices(routes, n).contains(name) <==> exists|i: int|
            0 <= i < n && text_member(#[trigger] routes[i], "dev"@) == Some(name),
    decreases n,
{
    if n > 0 {
        route_devices_are_protected(routes, n - 1, name);
        let before = route_devices(routes, n - 1);
        let after = route_devices(routes, n);
        match text_member(routes[n - 1], "dev"@) {
            Some(last) => {
                assert(after == before.push(last));
                assert(after[before.len() as int] == last);
                if before.contains(name) {
                    let k = choose|k: int| 0 <= k < before.len() && before[k] == name;
                    assert(after[k] == name);
                }
                if after.contains(name) && name != last {
                    let k = choose|k: int| 0 <= k < after.len() && after[k] == name;
                    assert(before[k] == name);
                }
            },
            None => {},
        }
    }
}

proof fn line_starts_at(list: Seq<Seq<char>>, start: Seq<char>, from: int, i: int)
    requires
        0 <= from <= i < list.len(),
        stands_at(list[i], start, 0),
        forall|j: int| from <= j < i ==> !stands_at(#[trigger] list[j], start, 0),
    ensures
        line_with(list, start, from) == Some(i),
    decreases i - from,
{
    if from < i {
        assert(!stands_at(list[from], start, 0));
        line_starts_at(list, start, from + 1, i);
    }
}

proof fn column_is_at(names: Seq<Seq<char>>, name: Seq<char>, from: int, k: int)
    requires
        0 <= from <= k < names.len(),
        names[k] == name,
        forall|j: int| from <= j < k ==> #[trigger] names[j] != name,
    ensures
        column_of(names, name, from) == Some(k),
    decreases k - from,
{
    if from < k {
        assert(names[from] != name);
        column_is_at(names, name, from + 1, k);
    }
}

/// A count is read from below its name: the first line of a protocol names the counts, and the
/// second one gives them in the same order.
pub proof fn counts_stand_below_their_names(
    text: Seq<char>,
    protocol: Seq<char>,
    name: Seq<char>,
    i: int,
    j: int,
    k: int,
    count: u64,
)
    requires
        0 <= i < j < lines(text).len(),
        stands_at(lines(text)[i], protocol, 0),
        stands_at(lines(text)[j], protocol, 0),
        forall|l: int|
            0 <= l < j && l != i ==> !stands_at(#[trigger] lines(text)[l], protocol, 0),
        0 <= k < words(lines(text)[i]).len(),
        k < words(lines(text)[j]).len(),
        words(lines(text)[i])[k] == name,
        forall|l: int| 0 <= l < k ==> #[trigger] words(lines(text)[i])[l] != name,
        words(lines(text)[j])[k] == decimal(count as int),
    ensures
        table_count(text, protocol, name) == count,
{
    let rows = lines(text);
    line_starts_at(rows, protocol, 0, i);
    line_starts_at(rows, protocol, i + 1, j);
    column_is_at(words(rows[i]), name, 0, k);
    decimals_denote_their_number(count as int, u64::MAX as int);
}

/// The counts of a run are what came to the system's counts since it began.
pub proof fn counts_begin_with_the_run(first: SystemCounts, now: SystemCounts)
    requires
        first.tx_packets <= now.tx_packets,
        first.rx_packets <= now.rx_packets,
        first.tx_bytes <= now.tx_bytes,
        first.rx_bytes <= now.rx_bytes,
        first.retransmitted <= now.retransmitted,
    ensures
        ({
            let c = counts_since(no_counts(), first, now);
            &&& first.tx_packets + c.packets_tx == now.tx_packets
            &&& first.rx_packets + c.packets_rx == now.rx_packets
            &&& first.tx_bytes + c.wire_tx_bytes == now.tx_bytes
            &&& first.rx_bytes + c.wire_rx_bytes == now.rx_bytes
            &&& first.retransmitted + c.tcp_retransmissions == now.retransmitted
        }),
{
}

} // verus!
