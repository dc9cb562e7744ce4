//! The network interfaces of a node.
use crate::digest::{sha256_hex, sha256_text};
use crate::json::{
    array_member, array_value, json_text, json_views, member, member_views, no_items, no_members,
    number_member, object_value, optional_json, optional_text, or_none, push_item, push_member,
    text_member, text_value, texts_json, texts_value, write_json, JsonValue, JsonView,
};
use crate::text::{
    append, char_views, chars_of, comes_before, copy, decimal, find_second_word,
    is_whitespace, lines, lines_of, maybe, push_decimal, same_text, second_word, stands_at,
    string_views, text_before, text_stands_at, trimmed_start,
};
use vstd::prelude::*;
use vstd::utf8::encode_utf8;

verus! {

/// Switches by name. No name occurs twice.
#[derive(Debug, Clone, PartialEq, Eq)]
pub struct Flags {
    pub entries: Vec<(String, bool)>,
}

/// What a list of switches holds.
pub open spec fn flag_views(entries: Seq<(String, bool)>) -> Seq<(Seq<char>, bool)> {
    entries.map_values(|e: (String, bool)| (e.0@, e.1))
}

/// The position of the first switch at or after `from` with a name.
pub open spec fn flag_at(entries: Seq<(Seq<char>, bool)>, name: Seq<char>, from: int) -> Option<int>
    decreases entries.len() - from,
{
    if from >= entries.len() {
        None
    } else if entries[from].0 == name {
        Some(from)
    } else {
        flag_at(entries, name, from + 1)
    }
}

/// The switch that has a name.
pub open spec fn flag(entries: Seq<(Seq<char>, bool)>, name: Seq<char>) -> Option<bool> {
    match flag_at(entries, name, 0) {
        Some(i) => Some(entries[i].1),
        None => None,
    }
}

/// The switches with one set.
pub open spec fn with_flag(
    entries: Seq<(Seq<char>, bool)>,
    name: Seq<char>,
    value: bool,
) -> Seq<(Seq<char>, bool)> {
    match flag_at(entries, name, 0) {
        Some(i) => entries.update(i, (name, value)),
        None => entries.push((name, value)),
    }
}

/// No name occurs twice.
pub open spec fn distinct_flags(entries: Seq<(Seq<char>, bool)>) -> bool {
    forall|i: int, j: int|
        0 <= i < j < entries.len() ==> (#[trigger] entries[i]).0 != (#[trigger] entries[j]).0
}

proof fn flag_at_finds(entries: Seq<(Seq<char>, bool)>, name: Seq<char>, from: int)
    requires
        0 <= from,
    ensures
        match flag_at(entries, name, from) {
            Some(i) => from <= i < entries.len() && entries[i].0 == name && forall|k: int|
                from <= k < i ==> (#[trigger] entries[k]).0 != name,
            None => forall|i: int| from <= i < entries.len() ==> (#[trigger] entries[i]).0 != name,
        },
    decreases entries.len() - from,
{
    if from < entries.len() && entries[from].0 != name {
        flag_at_finds(entries, name, from + 1);
    }
}

/// A switch that is set is found with its value, and no other switch changes.
pub proof fn set_flags_are_found(
    entries: Seq<(Seq<char>, bool)>,
    name: Seq<char>,
    value: bool,
    other: Seq<char>,
)
    requires
        distinct_flags(entries),
    ensures
        distinct_flags(with_flag(entries, name, value)),
        flag(with_flag(entries, name, value), name) == Some(value),
        other != name ==> flag(with_flag(entries, name, value), other) == flag(entries, other),
{
    let after = with_flag(entries, name, value);
    flag_at_finds(entries, name, 0);
    flag_at_finds(after, name, 0);
    flag_at_finds(entries, other, 0);
    flag_at_finds(after, other, 0);
    let at = match flag_at(entries, name, 0) {
        Some(i) => i,
        None => entries.len() as int,
    };
    assert(after[at] == (name, value));
    assert(forall|k: int| 0 <= k < entries.len() && k != at ==> after[k] == entries[k]);
    if other != name {
        if let Some(i) = flag_at(entries, other, 0) {
            assert(after[i] == entries[i]);
        }
        if let Some(i) = flag_at(after, other, 0) {
            assert(after[i] == entries[i]);
        }
    }
}

impl View for Flags {
    type V = Seq<(Seq<char>, bool)>;

    open spec fn view(&self) -> Seq<(Seq<char>, bool)> {
        flag_views(self.entries@)
    }
}

impl Default for Flags {
    fn default() -> (r: Flags)
        ensures
            r@ == Seq::<(Seq<char>, bool)>::empty(),
    {
        let r = Flags { entries: Vec::new() };
        assert(r@ =~= Seq::empty());
        r
    }
}

impl Flags {
    fn position(&self, name: &str) -> (r: Option<usize>)
        ensures
            match r {
                Some(i) => flag_at(self@, name@, 0) == Some(i as int) && i < self.entries@.len(),
                None => flag_at(self@, name@, 0) is None,
            },
    {
        let mut i: usize = 0;
        while i < self.entries.len()
            invariant
                flag_at(self@, name@, 0) == flag_at(self@, name@, i as int),
            decreases self.entries@.len() - i,
        {
            assert(self@[i as int] == (self.entries@[i as int].0@, self.entries@[i as int].1));
            if same_text(self.entries[i].0.as_str(), name) {
                return Some(i);
            }
            i += 1;
        }
        None
    }

    /// The switch that has a name.
    pub fn get(&self, name: &str) -> (r: Option<bool>)
        ensures
            r == flag(self@, name@),
    {
        match self.position(name) {
            Some(i) => {
                assert(self@[i as int].1 == self.entries@[i as int].1);
                Some(self.entries[i].1)
            },
            None => None,
        }
    }

    /// Sets a switch.
    pub fn insert(&mut self, name: &str, value: bool)
        ensures
            final(self)@ == with_flag(old(self)@, name@, value),
    {
        let ghost before = self@;
        match self.position(name) {
            Some(i) => {
                self.entries[i] = (copy(name), value);
                assert(self@ =~= before.update(i as int, (name@, value)));
            },
            None => {
                self.entries.push((copy(name), value));
                assert(self@ =~= before.push((name@, value)));
            },
        }
    }

    /// Whether a switch is there and on.
    pub fn is_on(&self, name: &str) -> (r: bool)
        ensures
            r == (flag(self@, name@) == Some(true)),
    {
        match self.get(name) {
            Some(value) => value,
            None => false,
        }
    }
}

/// A network interface.
#[derive(Debug, Clone, PartialEq, Eq)]
pub struct InterfaceInventory {
    pub name: String,
    pub mac: Option<String>,
    pub mtu: Option<u32>,
    pub state: Option<String>,
    pub master: Option<String>,
    /// What kind of virtual link it is, for example `veth`; nothing for a physical one.
    pub kind: Option<String>,
    pub addresses: Vec<String>,
    pub link_up: bool,
    pub offloads: Flags,
}

impl Default for InterfaceInventory {
    fn default() -> (r: InterfaceInventory)
        ensures
            r.name@.len() == 0,
            r.mac is None,
            r.mtu is None,
            r.state is None,
            r.master is None,
            r.kind is None,
            r.addresses@.len() == 0,
            !r.link_up,
            r.offloads@ == Seq::<(Seq<char>, bool)>::empty(),
    {
        InterfaceInventory {
            name: String::new(),
            mac: None,
            mtu: None,
            state: None,
            master: None,
            kind: None,
            addresses: Vec::new(),
            link_up: false,
            offloads: Flags::default(),
        }
    }
}

/// The network interfaces and tools of a node.
#[derive(Debug, Clone, PartialEq, Eq)]
pub struct NodeInventory {
    pub interfaces: Vec<InterfaceInventory>,
    pub capabilities: Flags,
    pub protected_interfaces: Vec<String>,
    pub fingerprint: String,
}

impl Default for NodeInventory {
    fn default() -> (r: NodeInventory)
        ensures
            r.interfaces@.len() == 0,
            r.capabilities@ == Seq::<(Seq<char>, bool)>::empty(),
            r.protected_interfaces@.len() == 0,
            r.fingerprint@.len() == 0,
    {
        NodeInventory {
            interfaces: Vec::new(),
            capabilities: Flags::default(),
            protected_interfaces: Vec::new(),
            fingerprint: String::new(),
        }
    }
}

/// The first line at or after `from` that starts with a label, after white space.
pub open spec fn labelled_line(list: Seq<Seq<char>>, label: Seq<char>, from: int) -> Option<
    Seq<char>,
>
    decreases list.len() - from,
{
    if from >= list.len() {
        None
    } else if stands_at(trimmed_start(list[from]), label, 0) {
        Some(list[from])
    } else {
        labelled_line(list, label, from + 1)
    }
}

/// The setting that the output of `ethtool -k` has behind a label: whether its second word is
/// `on`.
pub open spec fn offload_of(raw: Seq<char>, label: Seq<char>) -> Option<bool> {
    match labelled_line(lines(raw), label, 0) {
        Some(line) => match second_word(line) {
            Some(word) => Some(word == "on"@),
            None => None,
        },
        None => None,
    }
}

/// The switches with one set, where it has a value.
pub open spec fn with_known(
    entries: Seq<(Seq<char>, bool)>,
    name: Seq<char>,
    value: Option<bool>,
) -> Seq<(Seq<char>, bool)> {
    match value {
        Some(value) => with_flag(entries, name, value),
        None => entries,
    }
}

/// The offload settings that the output of `ethtool -k` lists, in the order of their names.
pub open spec fn offloads_of(raw: Seq<char>) -> Seq<(Seq<char>, bool)> {
    let gro = with_known(Seq::empty(), "gro"@, offload_of(raw, "generic-receive-offload:"@));
    let gso = with_known(gro, "gso"@, offload_of(raw, "generic-segmentation-offload:"@));
    let lro = with_known(gso, "lro"@, offload_of(raw, "large-receive-offload:"@));
    let rx = with_known(lro, "rx"@, offload_of(raw, "rx-checksumming:"@));
    let tso = with_known(rx, "tso"@, offload_of(raw, "tcp-segmentation-offload:"@));
    with_known(tso, "tx"@, offload_of(raw, "tx-checksumming:"@))
}

/// Whether a line starts with a label, after white space.
fn has_label(line: &[char], label: &[char]) -> (r: bool)
    ensures
        r == stands_at(trimmed_start(line@), label@, 0),
{
    let mut start: usize = 0;
    assert(line@.subrange(0, line@.len() as int) =~= line@);
    while start < line.len() && is_whitespace(line[start])
        invariant
            start <= line@.len(),
            trimmed_start(line@) == trimmed_start(
                line@.subrange(start as int, line@.len() as int),
            ),
        decreases line@.len() - start,
    {
        let ghost rest = line@.subrange(start as int, line@.len() as int);
        assert(rest.subrange(1, rest.len() as int) =~= line@.subrange(
            start + 1,
            line@.len() as int,
        ));
        start += 1;
    }
    text_stands_at(&line[start..line.len()], label, 0)
}

/// The setting behind a label.
fn find_offload(list: &Vec<&[char]>, label: &str, Ghost(raw): Ghost<Seq<char>>) -> (r: Option<bool>)
    requires
        char_views(list@) == lines(raw),
    ensures
        r == offload_of(raw, label@),
{
    let wanted = chars_of(label);
    let mut i: usize = 0;
    while i < list.len()
        invariant
            wanted@ == label@,
            char_views(list@) == lines(raw),
            list@.len() == lines(raw).len(),
            labelled_line(lines(raw), label@, 0) == labelled_line(lines(raw), label@, i as int),
        decreases list@.len() - i,
    {
        let line: &[char] = list[i];
        assert(lines(raw)[i as int] == char_views(list@)[i as int]);
        assert(lines(raw)[i as int] == line@);
        if has_label(line, wanted.as_slice()) {
            return match find_second_word(line) {
                Some(word) => {
                    let on = chars_of("on");
                    let full: bool = word.len() == on.len() && text_stands_at(
                        word,
                        on.as_slice(),
                        0,
                    );
                    assert(word@.len() == on@.len() ==> word@.subrange(0, on@.len() as int)
                        =~= word@);
                    Some(full)
                },
                None => None,
            };
        }
        i += 1;
    }
    None
}

/// Sets a switch, where it has a value.
fn insert_known(flags: &mut Flags, name: &str, value: Option<bool>)
    ensures
        final(flags)@ == with_known(old(flags)@, name@, value),
{
    if let Some(value) = value {
        flags.insert(name, value);
    }
}

/// The offload settings that the output of `ethtool -k` lists.
pub fn parse_offloads(raw: &str) -> (r: Flags)
    ensures
        r@ == offloads_of(raw@),
{
    let text = chars_of(raw);
    let list = lines_of(text.as_slice());
    let mut flags = Flags::default();
    insert_known(&mut flags, "gro", find_offload(&list, "generic-receive-offload:", Ghost(raw@)));
    insert_known(
        &mut flags,
        "gso",
        find_offload(&list, "generic-segmentation-offload:", Ghost(raw@)),
    );
    insert_known(&mut flags, "lro", find_offload(&list, "large-receive-offload:", Ghost(raw@)));
    insert_known(&mut flags, "rx", find_offload(&list, "rx-checksumming:", Ghost(raw@)));
    insert_known(&mut flags, "tso", find_offload(&list, "tcp-segmentation-offload:", Ghost(raw@)));
    insert_known(&mut flags, "tx", find_offload(&list, "tx-checksumming:", Ghost(raw@)));
    flags
}

/// What is known of a network interface.
#[verifier::ext_equal]
pub struct InterfaceView {
    pub name: Seq<char>,
    pub mac: Option<Seq<char>>,
    pub mtu: Option<int>,
    pub state: Option<Seq<char>>,
    pub master: Option<Seq<char>>,
    pub kind: Option<Seq<char>>,
    pub addresses: Seq<Seq<char>>,
    pub link_up: bool,
    pub offloads: Seq<(Seq<char>, bool)>,
}

impl View for InterfaceInventory {
    type V = InterfaceView;

    open spec fn view(&self) -> InterfaceView {
        InterfaceView {
            name: self.name@,
            mac: maybe(self.mac),
            mtu: match self.mtu {
                Some(n) => Some(n as int),
                None => None,
            },
            state: maybe(self.state),
            master: maybe(self.master),
            kind: maybe(self.kind),
            addresses: string_views(self.addresses@),
            link_up: self.link_up,
            offloads: self.offloads@,
        }
    }
}

/// What is known of network interfaces.
pub open spec fn interface_views(list: Seq<InterfaceInventory>) -> Seq<InterfaceView> {
    list.map_values(|i: InterfaceInventory| i@)
}

/// A list of values has a text.
pub open spec fn has_text_item(items: Seq<JsonView>, text: Seq<char>) -> bool {
    items.contains(JsonView::Text(text))
}

/// The interface that an entry of `ip -d -j link show` describes. Its addresses and offload settings
/// are listed elsewhere.
pub open spec fn interface_of(link: JsonView) -> InterfaceView {
    InterfaceView {
        name: match text_member(link, "ifname"@) {
            Some(name) => name,
            None => Seq::empty(),
        },
        mac: text_member(link, "address"@),
        mtu: match number_member(link, "mtu"@) {
            Some(n) => Some(n % 0x1_0000_0000),
            None => None,
        },
        state: text_member(link, "operstate"@),
        master: text_member(link, "master"@),
        kind: match member(link, "linkinfo"@) {
            Some(info) => text_member(info, "info_kind"@),
            None => None,
        },
        addresses: Seq::empty(),
        link_up: has_text_item(or_none(array_member(link, "flags"@)), "UP"@),
        offloads: Seq::empty(),
    }
}

/// Whether a list of values has a text.
fn lists_text(items: &Vec<JsonValue>, text: &str) -> (r: bool)
    ensures
        r == has_text_item(json_views(items@), text@),
{
    let ghost views = json_views(items@);
    let mut i: usize = 0;
    while i < items.len()
        invariant
            views == json_views(items@),
            i <= items@.len(),
            forall|j: int| 0 <= j < i ==> (#[trigger] views[j]) != JsonView::Text(text@),
        decreases items@.len() - i,
    {
        assert(views[i as int] == items@[i as int]@);
        let found: bool = match &items[i] {
            JsonValue::Text(t) => same_text(t.as_str(), text),
            _ => false,
        };
        if found {
            return true;
        }
        i += 1;
    }
    false
}

/// The interface that an entry of `ip -d -j link show` describes.
fn read_interface(link: &JsonValue) -> (r: InterfaceInventory)
    ensures
        r@ == interface_of(link@),
{
    let name = match link.copy_text("ifname") {
        Some(name) => name,
        None => String::new(),
    };
    let mtu: Option<u32> = match link.get_number("mtu") {
        Some(n) => Some((n % 0x1_0000_0000) as u32),
        None => None,
    };
    let link_up: bool = match link.get_array("flags") {
        Some(flags) => lists_text(flags, "UP"),
        None => false,
    };
    let r = InterfaceInventory {
        name,
        mac: link.copy_text("address"),
        mtu,
        state: link.copy_text("operstate"),
        master: link.copy_text("master"),
        kind: match link.get("linkinfo") {
            Some(info) => info.copy_text("info_kind"),
            None => None,
        },
        addresses: Vec::new(),
        link_up,
        offloads: Flags::default(),
    };
    assert(r@ =~= interface_of(link@));
    r
}

/// The interfaces that the entries of `ip -d -j link show` describe, in their order.
pub open spec fn interfaces_of(links: Seq<JsonView>) -> Seq<InterfaceView> {
    links.map_values(|link: JsonView| interface_of(link))
}

/// The interfaces that the entries of `ip -d -j link show` describe.
pub fn read_interfaces(links: &Vec<JsonValue>) -> (r: Vec<InterfaceInventory>)
    ensures
        interface_views(r@) == interfaces_of(json_views(links@)),
{
    let mut list: Vec<InterfaceInventory> = Vec::new();
    let mut i: usize = 0;
    while i < links.len()
        invariant
            i <= links@.len(),
            list@.len() == i,
            forall|j: int| 0 <= j < i ==> (#[trigger] list@[j])@ == interface_of(links@[j]@),
        decreases links@.len() - i,
    {
        list.push(read_interface(&links[i]));
        i += 1;
    }
    assert(interface_views(list@) =~= interfaces_of(json_views(links@)));
    list
}

/// The address that an entry of `addr_info` describes, if it has one.
pub open spec fn address_of(entry: JsonView) -> Option<Seq<char>> {
    match (text_member(entry, "local"@), number_member(entry, "prefixlen"@)) {
        (Some(local), Some(length)) => Some(local + "/"@ + decimal(length)),
        _ => None,
    }
}

/// The addresses that the first `n` entries of `addr_info` describe.
pub open spec fn addresses_of(entries: Seq<JsonView>, n: int) -> Seq<Seq<char>>
    decreases n,
{
    if n <= 0 {
        Seq::empty()
    } else {
        match address_of(entries[n - 1]) {
            Some(address) => addresses_of(entries, n - 1).push(address),
            None => addresses_of(entries, n - 1),
        }
    }
}

/// The addresses that the entries of `addr_info` describe.
fn read_addresses(entries: &Vec<JsonValue>) -> (r: Vec<String>)
    ensures
        string_views(r@) == addresses_of(json_views(entries@), entries@.len() as int),
{
    let ghost views = json_views(entries@);
    let mut list: Vec<String> = Vec::new();
    let mut i: usize = 0;
    assert(string_views(list@) =~= addresses_of(views, 0));
    while i < entries.len()
        invariant
            views == json_views(entries@),
            i <= entries@.len(),
            string_views(list@) == addresses_of(views, i as int),
        decreases entries@.len() - i,
    {
        assert(views[i as int] == entries@[i as int]@);
        let entry: &JsonValue = &entries[i];
        if let Some(local) = entry.get_text("local") {
            if let Some(length) = entry.get_number("prefixlen") {
                let ghost before = list@;
                let mut address = copy(local);
                append(&mut address, "/");
                push_decimal(&mut address, length);
                list.push(address);
                assert(string_views(list@) =~= string_views(before).push(address@));
            }
        }
        i += 1;
    }
    list
}

/// The first interface at or after `from` with a name.
pub open spec fn named_interface(list: Seq<InterfaceView>, name: Seq<char>, from: int) -> Option<int>
    decreases list.len() - from,
{
    if from >= list.len() {
        None
    } else if list[from].name == name {
        Some(from)
    } else {
        named_interface(list, name, from + 1)
    }
}

/// The interfaces with the addresses that the first `n` entries of `ip -j address show` list. An
/// entry whose interface is not known is passed over.
pub open spec fn with_addresses(list: Seq<InterfaceView>, entries: Seq<JsonView>, n: int) -> Seq<
    InterfaceView,
>
    decreases n,
{
    if n <= 0 {
        list
    } else {
        let before = with_addresses(list, entries, n - 1);
        let entry = entries[n - 1];
        let info = or_none(array_member(entry, "addr_info"@));
        match text_member(entry, "ifname"@) {
            Some(name) => match named_interface(before, name, 0) {
                Some(i) => before.update(
                    i,
                    InterfaceView { addresses: addresses_of(info, info.len() as int), ..before[i] },
                ),
                None => before,
            },
            None => before,
        }
    }
}

/// Sets the addresses that an entry of `ip -j address show` lists.
fn add_entry(list: &mut Vec<InterfaceInventory>, entry: &JsonValue)
    ensures
        interface_views(final(list)@) == (match text_member(entry@, "ifname"@) {
            Some(name) => match named_interface(interface_views(old(list)@), name, 0) {
                Some(i) => interface_views(old(list)@).update(
                    i,
                    InterfaceView {
                        addresses: addresses_of(
                            or_none(array_member(entry@, "addr_info"@)),
                            or_none(array_member(entry@, "addr_info"@)).len() as int,
                        ),
                        ..interface_views(old(list)@)[i]
                    },
                ),
                None => interface_views(old(list)@),
            },
            None => interface_views(old(list)@),
        }),
{
    let name: &str = match entry.get_text("ifname") {
        Some(name) => name,
        None => {
            return ;
        },
    };
    let ghost views = interface_views(list@);
    let mut i: usize = 0;
    while i < list.len()
        invariant
            i <= list@.len(),
            list@ == old(list)@,
            views == interface_views(list@),
            text_member(entry@, "ifname"@) == Some(name@),
            named_interface(views, name@, 0) == named_interface(views, name@, i as int),
        decreases list@.len() - i,
    {
        if same_text(list[i].name.as_str(), name) {
            let addresses: Vec<String> = match entry.get_array("addr_info") {
                Some(entries) => read_addresses(entries),
                None => Vec::new(),
            };
            assert(string_views(addresses@) =~= addresses_of(
                or_none(array_member(entry@, "addr_info"@)),
                or_none(array_member(entry@, "addr_info"@)).len() as int,
            ));
            let ghost before = list@;
            list[i].addresses = addresses;
            assert(interface_views(list@) =~= views.update(
                i as int,
                InterfaceView {
                    addresses: addresses_of(
                        or_none(array_member(entry@, "addr_info"@)),
                        or_none(array_member(entry@, "addr_info"@)).len() as int,
                    ),
                    ..views[i as int]
                },
            ));
            return ;
        }
        i += 1;
    }
}

/// Sets the addresses that the entries of `ip -j address show` list.
pub fn add_addresses(list: &mut Vec<InterfaceInventory>, entries: &Vec<JsonValue>)
    ensures
        interface_views(final(list)@) == with_addresses(
            interface_views(old(list)@),
            json_views(entries@),
            entries@.len() as int,
        ),
{
    let ghost start = interface_views(list@);
    let mut i: usize = 0;
    while i < entries.len()
        invariant
            i <= entries@.len(),
            interface_views(list@) == with_addresses(start, json_views(entries@), i as int),
        decreases entries@.len() - i,
    {
        assert(json_views(entries@)[i as int] == entries@[i as int]@);
        add_entry(list, &entries[i]);
        i += 1;
    }
}

/// Where an interface goes in a list that is in order: behind those that do not come after it.
pub open spec fn place_of(list: Seq<InterfaceView>, name: Seq<char>, from: int) -> int
    decreases list.len() - from,
{
    if from >= list.len() {
        list.len() as int
    } else if text_before(name, list[from].name, 0) {
        from
    } else {
        place_of(list, name, from + 1)
    }
}

/// The first `n` interfaces in the order of their names. Those of one name stay in their order.
pub open spec fn by_name(list: Seq<InterfaceView>, n: int) -> Seq<InterfaceView>
    decreases n,
{
    if n <= 0 {
        Seq::empty()
    } else {
        let rest = by_name(list, n - 1);
        rest.insert(place_of(rest, list[n - 1].name, 0), list[n - 1])
    }
}

/// No interface comes, by its name, before one that stands in front of it.
pub open spec fn in_order(list: Seq<InterfaceView>) -> bool {
    forall|i: int, j: int|
        0 <= i < j < list.len() ==> !text_before(
            (#[trigger] list[j]).name,
            (#[trigger] list[i]).name,
            0,
        )
}

proof fn before_is_transitive(a: Seq<char>, b: Seq<char>, c: Seq<char>, i: int)
    requires
        0 <= i,
    ensures
        text_before(a, b, i) && text_before(b, c, i) ==> text_before(a, c, i),
        !text_before(b, a, i) && !text_before(c, b, i) ==> !text_before(c, a, i),
        text_before(a, b, i) ==> !text_before(b, a, i),
    decreases a.len() + b.len() + c.len() - i,
{
    if i < a.len() || i < b.len() || i < c.len() {
        before_is_transitive(a, b, c, i + 1);
    }
}

proof fn place_parts(list: Seq<InterfaceView>, name: Seq<char>, from: int)
    requires
        0 <= from <= list.len(),
    ensures
        from <= place_of(list, name, from) <= list.len(),
        forall|i: int|
            from <= i < place_of(list, name, from) ==> !text_before(
                name,
                (#[trigger] list[i]).name,
                0,
            ),
        place_of(list, name, from) < list.len() ==> text_before(
            name,
            list[place_of(list, name, from)].name,
            0,
        ),
    decreases list.len() - from,
{
    if from < list.len() && !text_before(name, list[from].name, 0) {
        place_parts(list, name, from + 1);
    }
}

/// The interfaces of a list are brought into the order of their names: all of them are still
/// there, each as often as before.
pub proof fn sorting_keeps_all(list: Seq<InterfaceView>, n: int)
    requires
        0 <= n <= list.len(),
    ensures
        in_order(by_name(list, n)),
        by_name(list, n).len() == n,
        by_name(list, n).to_multiset() == list.subrange(0, n).to_multiset(),
    decreases n,
{
    broadcast use vstd::seq_lib::group_to_multiset_ensures;

    if n > 0 {
        sorting_keeps_all(list, n - 1);
        let rest = by_name(list, n - 1);
        let item = list[n - 1];
        let at = place_of(rest, item.name, 0);
        place_parts(rest, item.name, 0);
        let all = by_name(list, n);
        assert(all == rest.insert(at, item));
        assert forall|i: int, j: int| 0 <= i < j < all.len() implies !text_before(
            (#[trigger] all[j]).name,
            (#[trigger] all[i]).name,
            0,
        ) by {
            if j == at {
                assert(all[i] == rest[i]);
            } else if i == at {
                assert(all[j] == rest[j - 1]);
                before_is_transitive(item.name, rest[at].name, rest[j - 1].name, 0);
                if j - 1 > at {
                    assert(!text_before(rest[j - 1].name, rest[at].name, 0));
                }
                before_is_transitive(item.name, rest[at].name, item.name, 0);
                before_is_transitive(item.name, rest[j - 1].name, item.name, 0);
            } else {
                let a = if i < at {
                    i
                } else {
                    i - 1
                };
                let b = if j < at {
                    j
                } else {
                    j - 1
                };
                assert(all[i] == rest[a] && all[j] == rest[b]);
            }
        }
        vstd::seq_lib::to_multiset_insert(rest, at, item);
        assert(list.subrange(0, n) =~= list.subrange(0, n - 1).push(item));
    }
}

/// Brings interfaces into the order of their names.
pub fn sort_by_name(list: Vec<InterfaceInventory>) -> (r: Vec<InterfaceInventory>)
    ensures
        interface_views(r@) == by_name(interface_views(list@), list@.len() as int),
        in_order(interface_views(r@)),
        interface_views(r@).to_multiset() == interface_views(list@).to_multiset(),
{
    let ghost all = interface_views(list@);
    let mut rest: Vec<InterfaceInventory> = list;
    let mut out: Vec<InterfaceInventory> = Vec::new();
    let ghost mut taken: int = 0;
    assert(interface_views(rest@) =~= all.subrange(0, all.len() as int));
    assert(interface_views(out@) =~= Seq::empty());
    while rest.len() > 0
        invariant
            0 <= taken <= all.len(),
            interface_views(rest@) == all.subrange(taken, all.len() as int),
            interface_views(out@) == by_name(all, taken),
        decreases rest@.len(),
    {
        let ghost before = rest@;
        let ghost sorted = out@;
        let ghost views = interface_views(out@);
        assert(interface_views(rest@).len() == rest@.len());
        let item: InterfaceInventory = rest.remove(0);
        assert(interface_views(before)[0] == item@);
        assert(interface_views(rest@) =~= all.subrange(taken + 1, all.len() as int)) by {
            assert(interface_views(rest@) =~= interface_views(before).subrange(
                1,
                before.len() as int,
            ));
        }
        let mut at: usize = 0;
        while at < out.len() && !comes_before(item.name.as_str(), out[at].name.as_str())
            invariant
                at <= out@.len(),
                views == interface_views(out@),
                place_of(views, item.name@, 0) == place_of(views, item.name@, at as int),
            decreases out@.len() - at,
        {
            assert(views[at as int] == out@[at as int]@);
            at += 1;
        }
        if at < out.len() {
            assert(views[at as int] == out@[at as int]@);
        }
        out.insert(at, item);
        assert(interface_views(out@) =~= views.insert(at as int, item@));
        proof {
            taken = taken + 1;
        }
    }
    proof {
        sorting_keeps_all(all, taken);
        assert(all.subrange(0, taken) =~= all);
    }
    out
}

/// The interfaces that the first `n` routes use.
pub open spec fn route_devices(routes: Seq<JsonView>, n: int) -> Seq<Seq<char>>
    decreases n,
{
    if n <= 0 {
        Seq::empty()
    } else {
        match text_member(routes[n - 1], "dev"@) {
            Some(name) => route_devices(routes, n - 1).push(name),
            None => route_devices(routes, n - 1),
        }
    }
}

/// The interfaces that default routes use: those are protected.
pub fn read_devices(routes: &Vec<JsonValue>) -> (r: Vec<String>)
    ensures
        string_views(r@) == route_devices(json_views(routes@), routes@.len() as int),
{
    let ghost views = json_views(routes@);
    let mut list: Vec<String> = Vec::new();
    let mut i: usize = 0;
    assert(string_views(list@) =~= route_devices(views, 0));
    while i < routes.len()
        invariant
            views == json_views(routes@),
            i <= routes@.len(),
            string_views(list@) == route_devices(views, i as int),
        decreases routes@.len() - i,
    {
        assert(views[i as int] == routes@[i as int]@);
        if let Some(name) = routes[i].get_text("dev") {
            let ghost before = list@;
            list.push(copy(name));
            assert(string_views(list@) =~= string_views(before).push(name@));
        }
        i += 1;
    }
    list
}

/// Switches as they are recorded.
pub open spec fn flags_json(flags: Seq<(Seq<char>, bool)>) -> JsonView {
    JsonView::Object(
        flags.map_values(|f: (Seq<char>, bool)| (f.0, JsonView::Bool(f.1))),
    )
}

/// An interface as it is recorded.
pub open spec fn interface_json(i: InterfaceView) -> JsonView {
    JsonView::Object(
        seq![
            ("name"@, JsonView::Text(i.name)),
            ("mac"@, optional_json(i.mac)),
            (
                "mtu"@,
                match i.mtu {
                    Some(n) => JsonView::Unsigned(n as u64),
                    None => JsonView::Null,
                },
            ),
            ("state"@, optional_json(i.state)),
            ("master"@, optional_json(i.master)),
            ("kind"@, optional_json(i.kind)),
            ("addresses"@, texts_json(i.addresses)),
            ("link_up"@, JsonView::Bool(i.link_up)),
            ("offloads"@, flags_json(i.offloads)),
        ],
    )
}

/// Switches as they are recorded.
pub(crate) fn write_flags(flags: &Flags) -> (r: JsonValue)
    ensures
        r@ == flags_json(flags@),
{
    let ghost goal = flags_json(flags@)->Object_0;
    let mut members = no_members();
    let mut i: usize = 0;
    while i < flags.entries.len()
        invariant
            goal == flag_views(flags.entries@).map_values(
                |f: (Seq<char>, bool)| (f.0, JsonView::Bool(f.1)),
            ),
            i <= flags.entries@.len(),
            member_views(members@) == goal.subrange(0, i as int),
        decreases flags.entries@.len() - i,
    {
        push_member(
            &mut members,
            flags.entries[i].0.as_str(),
            JsonValue::Bool(flags.entries[i].1),
        );
        assert(member_views(members@) =~= goal.subrange(0, i + 1));
        i += 1;
    }
    assert(goal.subrange(0, i as int) =~= goal);
    object_value(members)
}

/// An interface as it is recorded.
pub(crate) fn write_interface(value: &InterfaceInventory) -> (r: JsonValue)
    ensures
        r@ == interface_json(value@),
{
    let mut members = no_members();
    push_member(&mut members, "name", text_value(value.name.as_str()));
    push_member(&mut members, "mac", optional_text(&value.mac));
    push_member(
        &mut members,
        "mtu",
        match value.mtu {
            Some(n) => JsonValue::Unsigned(n as u64),
            None => JsonValue::Null,
        },
    );
    push_member(&mut members, "state", optional_text(&value.state));
    push_member(&mut members, "master", optional_text(&value.master));
    push_member(&mut members, "kind", optional_text(&value.kind));
    push_member(&mut members, "addresses", texts_value(&value.addresses));
    push_member(&mut members, "link_up", JsonValue::Bool(value.link_up));
    push_member(&mut members, "offloads", write_flags(&value.offloads));
    let r = object_value(members);
    assert(r@->Object_0 =~= interface_json(value@)->Object_0);
    r
}

/// Interfaces as they are recorded.
pub open spec fn interfaces_json(list: Seq<InterfaceView>) -> JsonView {
    JsonView::Array(list.map_values(|i: InterfaceView| interface_json(i)))
}

/// Interfaces as they are recorded.
pub(crate) fn write_interfaces(list: &Vec<InterfaceInventory>) -> (r: JsonValue)
    ensures
        r@ == interfaces_json(interface_views(list@)),
{
    let ghost goal = interfaces_json(interface_views(list@))->Array_0;
    let mut items = no_items();
    let mut i: usize = 0;
    while i < list.len()
        invariant
            goal == interfaces_json(interface_views(list@))->Array_0,
            i <= list@.len(),
            json_views(items@) == goal.subrange(0, i as int),
        decreases list@.len() - i,
    {
        push_item(&mut items, write_interface(&list[i]));
        assert(json_views(items@) =~= goal.subrange(0, i + 1));
        i += 1;
    }
    assert(goal.subrange(0, i as int) =~= goal);
    array_value(items)
}

/// The interfaces with the offload settings that `ethtool -k` tells of each, where it does.
pub open spec fn with_offloads(list: Seq<InterfaceView>, raw: Seq<Option<String>>) -> Seq<
    InterfaceView,
> {
    Seq::new(
        list.len(),
        |i: int|
            if 0 <= i < raw.len() && raw[i] is Some {
                InterfaceView { offloads: offloads_of(raw[i]->0@), ..list[i] }
            } else {
                list[i]
            },
    )
}

/// The interfaces of a node: those of the links, with their offload settings and addresses, in the
/// order of their names.
pub open spec fn node_interfaces(
    links: Seq<JsonView>,
    addresses: Seq<JsonView>,
    offloads: Seq<Option<String>>,
) -> Seq<InterfaceView> {
    by_name(
        with_addresses(
            with_offloads(interfaces_of(links), offloads),
            addresses,
            addresses.len() as int,
        ),
        links.len() as int,
    )
}

proof fn named_interfaces_are_there(list: Seq<InterfaceView>, name: Seq<char>, from: int)
    requires
        0 <= from,
    ensures
        named_interface(list, name, from) matches Some(i) ==> from <= i < list.len(),
    decreases list.len() - from,
{
    if from < list.len() && list[from].name != name {
        named_interfaces_are_there(list, name, from + 1);
    }
}

proof fn addresses_keep_the_length(list: Seq<InterfaceView>, entries: Seq<JsonView>, n: int)
    ensures
        with_addresses(list, entries, n).len() == list.len(),
    decreases n,
{
    if n > 0 {
        addresses_keep_the_length(list, entries, n - 1);
        if let Some(name) = text_member(entries[n - 1], "ifname"@) {
            named_interfaces_are_there(with_addresses(list, entries, n - 1), name, 0);
        }
    }
}

/// Sets the offload settings of interfaces.
fn add_offloads(list: &mut Vec<InterfaceInventory>, raw: &Vec<Option<String>>)
    ensures
        interface_views(final(list)@) == with_offloads(interface_views(old(list)@), raw@),
{
    let ghost start = interface_views(list@);
    let ghost goal = with_offloads(start, raw@);
    let mut i: usize = 0;
    while i < list.len() && i < raw.len()
        invariant
            i <= list@.len(),
            i <= raw@.len(),
            list@.len() == start.len(),
            goal == with_offloads(start, raw@),
            forall|j: int| 0 <= j < i ==> (#[trigger] list@[j])@ == goal[j],
            forall|j: int| i <= j < start.len() ==> (#[trigger] list@[j])@ == start[j],
        decreases list@.len() - i,
    {
        if let Some(text) = &raw[i] {
            let offloads = parse_offloads(text.as_str());
            list[i].offloads = offloads;
            assert(list@[i as int]@ =~= goal[i as int]);
        }
        i += 1;
    }
    assert(interface_views(list@) =~= goal);
}

/// The interfaces of a node, and those of them that are protected, from what `ip` and `ethtool`
/// tell of its links, addresses, default routes and offload settings. The settings stand in the
/// order of the links.
pub fn inventory_of(
    links: &Vec<JsonValue>,
    addresses: &Vec<JsonValue>,
    routes: &Vec<JsonValue>,
    offloads: &Vec<Option<String>>,
) -> (r: (Vec<InterfaceInventory>, Vec<String>))
    ensures
        interface_views(r.0@) == node_interfaces(
            json_views(links@),
            json_views(addresses@),
            offloads@,
        ),
        string_views(r.1@) == route_devices(json_views(routes@), routes@.len() as int),
{
    let mut list = read_interfaces(links);
    add_offloads(&mut list, offloads);
    add_addresses(&mut list, addresses);
    proof {
        addresses_keep_the_length(
            with_offloads(interfaces_of(json_views(links@)), offloads@),
            json_views(addresses@),
            addresses@.len() as int,
        );
        assert(interface_views(list@).len() == list@.len());
    }
    (sort_by_name(list), read_devices(routes))
}

/// What the fingerprint of an inventory is made of: its interfaces and those that are protected.
pub open spec fn canonical_json(list: Seq<InterfaceView>, protected: Seq<Seq<char>>) -> JsonView {
    JsonView::Array(seq![interfaces_json(list), texts_json(protected)])
}

/// The fingerprint of interfaces, of which some are protected.
pub open spec fn fingerprint_of(list: Seq<InterfaceView>, protected: Seq<Seq<char>>) -> Seq<char> {
    sha256_text(encode_utf8(json_text(canonical_json(list, protected))))
}

impl NodeInventory {
    /// An inventory of these interfaces. Its fingerprint is the digest of what is known of them
    /// and of which are protected.
    pub fn new(
        interfaces: Vec<InterfaceInventory>,
        capabilities: Flags,
        protected_interfaces: Vec<String>,
    ) -> (r: NodeInventory)
        ensures
            r.interfaces == interfaces,
            r.capabilities == capabilities,
            r.protected_interfaces == protected_interfaces,
            r.fingerprint@ == fingerprint_of(
                interface_views(interfaces@),
                string_views(protected_interfaces@),
            ),
    {
        let mut parts = no_items();
        push_item(&mut parts, write_interfaces(&interfaces));
        push_item(&mut parts, texts_value(&protected_interfaces));
        let canonical = array_value(parts);
        assert(canonical@->Array_0 =~= canonical_json(
            interface_views(interfaces@),
            string_views(protected_interfaces@),
        )->Array_0);
        let text = write_json(&canonical);
        let fingerprint = sha256_hex(text.as_str().as_bytes());
        NodeInventory { interfaces, capabilities, protected_interfaces, fingerprint }
    }
}

} // verus!
