//! AirPlay devices: which of them are meant, and how they are shown.

use vstd::prelude::*;

use crate::split::{self, join};
use crate::text::{self, chars_of, contains, to_ascii_lowercase};

verus! {

/// An AirPlay device, as far as it matters here.
#[derive(Debug)]
pub struct Device {
    /// The device's name.
    pub name: String,
    /// The device's model.
    pub model: String,
    /// The device's identity, written as a hardware address.
    pub mac: String,
    /// The address and port under which the device is reached, if known.
    pub socket_addr: Option<String>,
    /// All network addresses of the device.
    pub addresses: Vec<String>,
    /// A number for the group that the device belongs to: the same for two
    /// devices exactly if they belong to the same group.
    pub group_id: Option<u64>,
    /// Whether the device leads its group.
    pub is_group_leader: bool,
    /// The name under which the group appears.
    pub group_public_name: Option<String>,
    /// Whether the device speaks AirPlay 2.
    pub supports_airplay2: bool,
    /// Whether the device speaks the older audio protocol.
    pub supports_raop: bool,
}

impl Device {
    /// The name of the device's group, empty where there is none.
    pub open spec fn group_name(self) -> Seq<char> {
        match self.group_public_name {
            Some(name) => name@,
            None => Seq::empty(),
        }
    }

    /// Whether the device is meant by a text: its name, its model, its group's
    /// name or its hardware address contains the text, whatever the case of
    /// ASCII letters; or one of its network addresses contains the text in
    /// lower case.
    pub open spec fn matches_text(self, needle: Seq<char>) -> bool {
        let low = text::lowercase(needle);
        ||| text::occurs(text::lowercase(self.name@), low)
        ||| text::occurs(text::lowercase(self.model@), low)
        ||| text::occurs(text::lowercase(self.group_name()), low)
        ||| text::occurs(text::lowercase(self.mac@), low)
        ||| exists|i: int|
            0 <= i < self.addresses@.len() && text::occurs(
                (#[trigger] self.addresses@[i])@,
                low,
            )
    }
}

/// Whether a text contains a part that is in lower case already, whatever the
/// case of the text's own ASCII letters.
fn contains_lower(text: &str, low: &str) -> (found: bool)
    ensures
        found == text::occurs(text::lowercase(text@), low@),
{
    let text = to_ascii_lowercase(text);
    contains(text.as_str(), low)
}

/// Whether a device is meant by a text.
pub fn device_matches(device: &Device, needle: &str) -> (found: bool)
    ensures
        found == device.matches_text(needle@),
{
    let low = to_ascii_lowercase(needle);
    for i in 0..device.addresses.len()
        invariant
            low@ == text::lowercase(needle@),
            forall|j: int|
                0 <= j < i ==> !text::occurs((#[trigger] device.addresses@[j])@, low@),
    {
        if contains(device.addresses[i].as_str(), low.as_str()) {
            return true;
        }
    }
    let group_name = match &device.group_public_name {
        Some(name) => contains_lower(name.as_str(), low.as_str()),
        None => contains_lower(String::new().as_str(), low.as_str()),
    };
    group_name || contains_lower(device.name.as_str(), low.as_str()) || contains_lower(
        device.model.as_str(),
        low.as_str(),
    ) || contains_lower(device.mac.as_str(), low.as_str())
}

/// The indices below `count` of the devices that a text means, rising.
pub open spec fn matching(devices: Seq<Device>, needle: Seq<char>, count: nat) -> Seq<usize>
    decreases count,
{
    if count == 0 {
        Seq::empty()
    } else {
        let before = matching(devices, needle, (count - 1) as nat);
        if devices[count - 1].matches_text(needle) {
            before.push((count - 1) as usize)
        } else {
            before
        }
    }
}

/// Indices that rise and stay below a bound.
pub open spec fn rising(indices: Seq<usize>, bound: int) -> bool {
    &&& forall|i: int| 0 <= i < indices.len() ==> (#[trigger] indices[i]) < bound
    &&& forall|i: int, j: int| 0 <= i < j < indices.len() ==> indices[i] < indices[j]
}

/// The indices of the matching devices rise.
pub proof fn lemma_matching_rises(devices: Seq<Device>, needle: Seq<char>, count: nat)
    requires
        count <= usize::MAX,
    ensures
        rising(matching(devices, needle, count), count as int),
    decreases count,
{
    if count > 0 {
        lemma_matching_rises(devices, needle, (count - 1) as nat);
    }
}

/// The indices of the devices that a text means, rising.
pub fn matching_devices(devices: &[Device], needle: &str) -> (indices: Vec<usize>)
    ensures
        indices@ == matching(devices@, needle@, devices@.len()),
        rising(indices@, devices@.len() as int),
{
    let mut indices: Vec<usize> = Vec::new();
    for i in 0..devices.len()
        invariant
            indices@ == matching(devices@, needle@, i as nat),
    {
        if device_matches(&devices[i], needle) {
            indices.push(i);
        }
    }
    proof {
        lemma_matching_rises(devices@, needle@, devices@.len());
    }
    indices
}

/// Whether a text comes before another: at the first difference the smaller
/// character comes first, and a text comes before its continuations.
pub open spec fn text_before(a: Seq<char>, b: Seq<char>) -> bool
    decreases a.len(),
{
    if b.len() == 0 {
        false
    } else if a.len() == 0 {
        true
    } else if a.first() != b.first() {
        a.first() < b.first()
    } else {
        text_before(a.drop_first(), b.drop_first())
    }
}

/// Of two different texts, one comes before the other, and no text before
/// itself.
proof fn lemma_text_order_is_total(a: Seq<char>, b: Seq<char>)
    ensures
        text_before(a, b) ==> !text_before(b, a) && a != b,
        a != b ==> text_before(a, b) || text_before(b, a),
    decreases a.len(),
{
    if a.len() > 0 && b.len() > 0 {
        lemma_text_order_is_total(a.drop_first(), b.drop_first());
        if a.first() == b.first() {
            assert(a =~= seq![a.first()] + a.drop_first());
            assert(b =~= seq![b.first()] + b.drop_first());
        }
    } else if a.len() == 0 && b.len() == 0 {
        assert(a =~= b);
    }
}

/// The order of texts is transitive.
proof fn lemma_text_order_is_transitive(a: Seq<char>, b: Seq<char>, c: Seq<char>)
    requires
        text_before(a, b),
        text_before(b, c),
    ensures
        text_before(a, c),
    decreases a.len(),
{
    if a.len() > 0 && a.first() == b.first() && b.first() == c.first() {
        lemma_text_order_is_transitive(a.drop_first(), b.drop_first(), c.drop_first());
    }
}

/// Whether a text comes before another.
pub fn comes_before(a: &str, b: &str) -> (before: bool)
    ensures
        before == text_before(a@, b@),
{
    let first = chars_of(a);
    let second = chars_of(b);
    let mut i: usize = 0;
    assert(a@.skip(0) =~= a@);
    assert(b@.skip(0) =~= b@);
    while i < first.len() && i < second.len()
        invariant
            first@ == a@,
            second@ == b@,
            i <= a@.len(),
            i <= b@.len(),
            text_before(a@, b@) == text_before(a@.skip(i as int), b@.skip(i as int)),
        decreases a@.len() - i,
    {
        if first[i] != second[i] {
            return first[i] < second[i];
        }
        assert(a@.skip(i as int).drop_first() =~= a@.skip(i + 1));
        assert(b@.skip(i as int).drop_first() =~= b@.skip(i + 1));
        i = i + 1;
    }
    i < second.len()
}

/// Whether device `a` comes before device `b` in a group: leaders first, then
/// by name, then by index.
pub open spec fn ranks_before(devices: Seq<Device>, a: usize, b: usize) -> bool {
    let first = devices[a as int];
    let second = devices[b as int];
    if first.is_group_leader != second.is_group_leader {
        first.is_group_leader
    } else if first.name@ != second.name@ {
        text_before(first.name@, second.name@)
    } else {
        a < b
    }
}

/// The ranking puts any two members of a group in an order.
proof fn lemma_ranking_is_total(devices: Seq<Device>, a: usize, b: usize)
    ensures
        ranks_before(devices, a, b) ==> !ranks_before(devices, b, a) && a != b,
        a != b ==> ranks_before(devices, a, b) || ranks_before(devices, b, a),
{
    lemma_text_order_is_total(devices[a as int].name@, devices[b as int].name@);
}

/// The ranking is transitive.
proof fn lemma_ranking_is_transitive(devices: Seq<Device>, a: usize, b: usize, c: usize)
    requires
        ranks_before(devices, a, b),
        ranks_before(devices, b, c),
    ensures
        ranks_before(devices, a, c),
{
    let x = devices[a as int];
    let y = devices[b as int];
    let z = devices[c as int];
    lemma_text_order_is_total(x.name@, y.name@);
    lemma_text_order_is_total(y.name@, z.name@);
    lemma_text_order_is_total(x.name@, z.name@);
    if text_before(x.name@, y.name@) && text_before(y.name@, z.name@) {
        lemma_text_order_is_transitive(x.name@, y.name@, z.name@);
    }
}

/// Whether device `a` comes before device `b` in a group.
fn ranked_before(devices: &[Device], a: usize, b: usize) -> (before: bool)
    requires
        a < devices@.len(),
        b < devices@.len(),
    ensures
        before == ranks_before(devices@, a, b),
{
    let first = &devices[a];
    let second = &devices[b];
    if first.is_group_leader != second.is_group_leader {
        return first.is_group_leader;
    }
    proof {
        lemma_text_order_is_total(first.name@, second.name@);
    }
    if comes_before(first.name.as_str(), second.name.as_str()) {
        return true;
    }
    if comes_before(second.name.as_str(), first.name.as_str()) {
        return false;
    }
    a < b
}

/// Whether indices stand in the order of the ranking.
pub open spec fn ranked(devices: Seq<Device>, order: Seq<usize>) -> bool {
    forall|i: int, j: int| 0 <= i < j < order.len() ==> ranks_before(devices, order[i], order[j])
}

/// Whether `order` is the members' order in their group.
pub open spec fn is_group_order(
    devices: Seq<Device>,
    members: Seq<usize>,
    order: Seq<usize>,
) -> bool {
    order.to_multiset() == members.to_multiset() && ranked(devices, order)
}

/// Whether devices make up a group: two or more, all of the same group.
pub open spec fn is_group(devices: Seq<Device>, members: Seq<usize>) -> bool {
    &&& members.len() >= 2
    &&& devices[members[0] as int].group_id is Some
    &&& forall|i: int|
        0 <= i < members.len() ==> devices[#[trigger] members[i] as int].group_id
            == devices[members[0] as int].group_id
}

/// Puts one more member in its place.
fn insert_ranked(devices: &[Device], order: &mut Vec<usize>, member: usize)
    requires
        member < devices@.len(),
        !old(order)@.contains(member),
        forall|i: int| 0 <= i < old(order)@.len() ==> (#[trigger] old(order)@[i]) < devices@.len(),
        ranked(devices@, old(order)@),
    ensures
        ranked(devices@, final(order)@),
        final(order)@.to_multiset() == old(order)@.to_multiset().insert(member),
        forall|i: int|
            0 <= i < final(order)@.len() ==> (#[trigger] final(order)@[i]) < devices@.len(),
        forall|m: usize|
            #![trigger final(order)@.contains(m)]
            final(order)@.contains(m) <==> old(order)@.contains(m) || m == member,
{
    let ghost start = order@;
    let count: usize = order.len();
    let mut at: usize = 0;
    while at < count && !ranked_before(devices, member, order[at])
        invariant
            member < devices@.len(),
            order@ == start,
            count == start.len(),
            at <= count,
            !start.contains(member),
            forall|i: int| 0 <= i < start.len() ==> (#[trigger] start[i]) < devices@.len(),
            forall|i: int| 0 <= i < at ==> ranks_before(devices@, #[trigger] start[i], member),
        decreases count - at,
    {
        proof {
            assert(start.contains(start[at as int]));
            lemma_ranking_is_total(devices@, member, start[at as int]);
        }
        at = at + 1;
    }
    order.insert(at, member);
    proof {
        let end = order@;
        vstd::seq_lib::to_multiset_insert(start, at as int, member);
        assert forall|i: int, j: int| 0 <= i < j < end.len() implies ranks_before(
            devices@,
            end[i],
            end[j],
        ) by {
            if at < i {
                assert(end[i] == start[i - 1] && end[j] == start[j - 1]);
            } else if i == at {
                assert(end[j] == start[j - 1]);
                if j - 1 > at {
                    lemma_ranking_is_transitive(devices@, member, start[at as int], start[j - 1]);
                }
            } else if j > at {
                assert(end[i] == start[i] && end[j] == start[j - 1]);
            }
        }
        assert forall|m: usize|
            #![trigger end.contains(m)]
            end.contains(m) <==> start.contains(m) || m == member by {
            if start.contains(m) {
                let k = choose|k: int| 0 <= k < start.len() && start[k] == m;
                if k < at {
                    assert(end[k] == m);
                } else {
                    assert(end[k + 1] == m);
                }
            }
            if m == member {
                assert(end[at as int] == m);
            }
            if end.contains(m) {
                let k = choose|k: int| 0 <= k < end.len() && end[k] == m;
                if k < at {
                    assert(start[k] == m);
                } else if k > at {
                    assert(start[k - 1] == m);
                }
            }
        }
    }
}

/// The members of a group in their order, if the devices make up a group.
pub fn collapse_group_matches(devices: &[Device], members: &[usize]) -> (group: Option<Vec<usize>>)
    requires
        rising(members@, devices@.len() as int),
    ensures
        match group {
            Some(order) => is_group(devices@, members@) && is_group_order(
                devices@,
                members@,
                order@,
            ),
            None => !is_group(devices@, members@),
        },
{
    if members.len() < 2 {
        return None;
    }
    let group_id = match devices[members[0]].group_id {
        Some(id) => id,
        None => {
            return None;
        },
    };
    for i in 0..members.len()
        invariant
            rising(members@, devices@.len() as int),
            members@.len() >= 2,
            devices@[members@[0] as int].group_id == Some(group_id),
            forall|j: int|
                0 <= j < i ==> devices@[#[trigger] members@[j] as int].group_id == Some(group_id),
    {
        let same = match devices[members[i]].group_id {
            Some(id) => id == group_id,
            None => false,
        };
        if !same {
            assert(devices@[members@[i as int] as int].group_id != Some(group_id));
            return None;
        }
    }
    let mut order: Vec<usize> = Vec::new();
    assert(members@.take(0) =~= order@);
    for i in 0..members.len()
        invariant
            rising(members@, devices@.len() as int),
            ranked(devices@, order@),
            order@.to_multiset() == members@.take(i as int).to_multiset(),
            forall|j: int| 0 <= j < order@.len() ==> (#[trigger] order@[j]) < devices@.len(),
            forall|m: usize|
                #![trigger order@.contains(m)]
                order@.contains(m) <==> members@.take(i as int).contains(m),
    {
        proof {
            assert(!members@.take(i as int).contains(members@[i as int]));
            assert(!order@.contains(members@[i as int]));
        }
        let ghost before = order@;
        insert_ranked(devices, &mut order, members[i]);
        proof {
            let shorter = members@.take(i as int);
            let longer = members@.take(i + 1);
            assert(longer =~= shorter.push(members@[i as int]));
            vstd::seq_lib::to_multiset_build(shorter, members@[i as int]);
            assert forall|m: usize|
                #![trigger order@.contains(m)]
                order@.contains(m) <==> longer.contains(m) by {
                assert(before.contains(m) <==> shorter.contains(m));
                if shorter.contains(m) {
                    let k = choose|k: int| 0 <= k < shorter.len() && shorter[k] == m;
                    assert(longer[k] == m);
                }
                if m == members@[i as int] {
                    assert(longer[i as int] == m);
                }
                if longer.contains(m) {
                    let k = choose|k: int| 0 <= k < longer.len() && longer[k] == m;
                    if k < i {
                        assert(shorter[k] == m);
                    }
                }
            }
        }
    }
    assert(members@.take(members@.len() as int) =~= members@);
    Some(order)
}

/// The target of the bridge.
#[derive(Debug)]
pub enum AirPlayTarget {
    /// One device, by its index.
    Single(usize),
    /// A group of devices, by their indices, in their order in the group.
    Group(Vec<usize>),
}

/// Why there is no target.
#[derive(Debug)]
pub enum SelectError {
    /// No device is meant by the text.
    NoMatch { target: String },
    /// Several devices are meant that do not make up a group.
    Ambiguous { target: String, names: String },
}

impl SelectError {
    /// The error in words.
    pub open spec fn words(self) -> Seq<char> {
        match self {
            SelectError::NoMatch { target } => "no AirPlay device matched '"@ + target@ + "'"@,
            SelectError::Ambiguous { target, names } => "AirPlay match '"@ + target@
                + "' is ambiguous: "@ + names@,
        }
    }

    /// The error in words.
    pub fn message(&self) -> (text: String)
        ensures
            text@ == self.words(),
    {
        match self {
            SelectError::NoMatch { target } => {
                let mut text = "no AirPlay device matched '".to_owned();
                text.append(target.as_str());
                text.append("'");
                text
            },
            SelectError::Ambiguous { target, names } => {
                let mut text = "AirPlay match '".to_owned();
                text.append(target.as_str());
                text.append("' is ambiguous: ");
                text.append(names.as_str());
                text
            },
        }
    }
}

/// The names of devices, by their indices.
pub open spec fn names_of(devices: Seq<Device>, members: Seq<usize>) -> Seq<Seq<char>> {
    members.map_values(|i: usize| devices[i as int].name@)
}

/// The names of devices, by their indices, with commas between them.
pub fn device_names(devices: &[Device], members: &[usize]) -> (names: String)
    requires
        forall|i: int| 0 <= i < members@.len() ==> (#[trigger] members@[i]) < devices@.len(),
    ensures
        names@ == split::joined(names_of(devices@, members@), ", "@),
{
    let mut list: Vec<String> = Vec::new();
    for i in 0..members.len()
        invariant
            forall|j: int| 0 <= j < members@.len() ==> (#[trigger] members@[j]) < devices@.len(),
            split::views(list@) =~= names_of(devices@, members@).take(i as int),
    {
        let ghost before = list@;
        list.push(devices[members[i]].name.clone());
        assert(split::views(list@) =~= split::views(before).push(
            devices@[members@[i as int] as int].name@,
        ));
    }
    assert(split::views(list@) =~= names_of(devices@, members@));
    join(&list, ", ")
}

/// Whether a selection is that of the text: the one device that it means, the
/// group that the devices it means make up, or why there is neither.
pub open spec fn is_selection(
    devices: Seq<Device>,
    target: Seq<char>,
    selected: Result<AirPlayTarget, SelectError>,
) -> bool {
    let members = matching(devices, target, devices.len());
    match selected {
        Ok(AirPlayTarget::Single(index)) => members == seq![index] && index < devices.len(),
        Ok(AirPlayTarget::Group(order)) => is_group(devices, members) && is_group_order(
            devices,
            members,
            order@,
        ),
        Err(SelectError::NoMatch { target: text }) => members.len() == 0 && text@ == target,
        Err(SelectError::Ambiguous { target: text, names }) => {
            &&& members.len() >= 2
            &&& !is_group(devices, members)
            &&& text@ == target
            &&& names@ == split::joined(names_of(devices, members), ", "@)
        },
    }
}

/// The target that a text means: the one device that matches, or the group that
/// the matching devices make up.
pub fn select_airplay_target(devices: &[Device], target: &str) -> (selected: Result<
    AirPlayTarget,
    SelectError,
>)
    ensures
        is_selection(devices@, target@, selected),
{
    let members = matching_devices(devices, target);
    if members.len() == 0 {
        return Err(SelectError::NoMatch { target: target.to_owned() });
    }
    if members.len() == 1 {
        assert(members@ =~= seq![members@[0]]);
        return Ok(AirPlayTarget::Single(members[0]));
    }
    match collapse_group_matches(devices, &members) {
        Some(order) => Ok(AirPlayTarget::Group(order)),
        None => Err(
            SelectError::Ambiguous {
                target: target.to_owned(),
                names: device_names(devices, &members),
            },
        ),
    }
}

/// The protocol that a device speaks.
pub open spec fn protocol(device: Device) -> Seq<char> {
    if device.supports_airplay2 {
        "AirPlay2"@
    } else if device.supports_raop {
        "RAOP"@
    } else {
        "unknown"@
    }
}

/// How a device is listed.
pub open spec fn discover_line(device: Device) -> Seq<char> {
    device.name@ + "\t"@ + device.model@ + "\t"@ + (match device.socket_addr {
        Some(addr) => addr@,
        None => "<no address>"@,
    }) + "\t"@ + protocol(device)
}

/// How a device is listed.
fn discovered(device: &Device) -> (line: String)
    ensures
        line@ == discover_line(*device),
{
    let mut line = device.name.clone();
    line.append("\t");
    line.append(device.model.as_str());
    line.append("\t");
    match &device.socket_addr {
        Some(addr) => line.append(addr.as_str()),
        None => line.append("<no address>"),
    }
    line.append("\t");
    if device.supports_airplay2 {
        line.append("AirPlay2");
    } else if device.supports_raop {
        line.append("RAOP");
    } else {
        line.append("unknown");
    }
    line
}

/// The lines that list the devices found.
pub open spec fn discover_lines(devices: Seq<Device>) -> Seq<Seq<char>> {
    if devices.len() == 0 {
        seq!["No AirPlay devices found."@]
    } else {
        devices.map_values(|device: Device| discover_line(device))
    }
}

/// The lines that list the devices found.
pub fn discover(devices: &[Device]) -> (report: Vec<String>)
    ensures
        split::views(report@) == discover_lines(devices@),
{
    let mut report: Vec<String> = Vec::new();
    let ghost all = devices@.map_values(|device: Device| discover_line(device));
    if devices.len() == 0 {
        report.push("No AirPlay devices found.".to_owned());
        assert(split::views(report@) =~= seq!["No AirPlay devices found."@]);
        return report;
    }
    for i in 0..devices.len()
        invariant
            all == devices@.map_values(|device: Device| discover_line(device)),
            split::views(report@) =~= all.take(i as int),
    {
        let ghost before = report@;
        report.push(discovered(&devices[i]));
        assert(split::views(report@) =~= split::views(before).push(all[i as int]));
    }
    assert(all.take(devices@.len() as int) =~= all);
    report
}

/// What a search for AirPlay devices has led to.
#[derive(Debug)]
pub enum ScanOutcome {
    /// The browser for the search could not be created.
    NoBrowser,
    /// The search failed.
    Failed,
    /// These devices were found.
    Found(Vec<Device>),
}

/// What a search for AirPlay devices shows, or what is said of its failure.
pub fn discover_outcome(outcome: &ScanOutcome) -> (report: Result<Vec<String>, String>)
    ensures
        match outcome {
            ScanOutcome::NoBrowser => report matches Err(message) && message@
                == "create AirPlay service browser"@,
            ScanOutcome::Failed => report matches Err(message) && message@
                == "discover AirPlay devices"@,
            ScanOutcome::Found(devices) => report matches Ok(lines) && split::views(lines@)
                == discover_lines(devices@),
        },
{
    match outcome {
        ScanOutcome::NoBrowser => Err("create AirPlay service browser".to_owned()),
        ScanOutcome::Failed => Err("discover AirPlay devices".to_owned()),
        ScanOutcome::Found(devices) => Ok(discover(devices)),
    }
}

/// The order of a group is unique.
pub proof fn law_group_order_is_unique(
    devices: Seq<Device>,
    members: Seq<usize>,
    first: Seq<usize>,
    second: Seq<usize>,
)
    requires
        is_group_order(devices, members, first),
        is_group_order(devices, members, second),
    ensures
        first == second,
{
    let leq = |a: usize, b: usize| a == b || ranks_before(devices, a, b);
    assert forall|a: usize, b: usize| #[trigger] leq(a, b) && #[trigger] leq(b, a) implies a
        == b by {
        lemma_ranking_is_total(devices, a, b);
    }
    assert forall|a: usize, b: usize| #[trigger] leq(a, b) || #[trigger] leq(b, a) by {
        lemma_ranking_is_total(devices, a, b);
    }
    assert forall|a: usize, b: usize, c: usize| #[trigger] leq(a, b) && #[trigger] leq(
        b,
        c,
    ) implies leq(a, c) by {
        if a != b && b != c {
            lemma_ranking_is_transitive(devices, a, b, c);
        }
    }
    vstd::seq_lib::lemma_sorted_unique(first, second, leq);
}

/// In the order of a group, nobody comes before a leader but leaders.
pub proof fn law_leaders_come_first(
    devices: Seq<Device>,
    members: Seq<usize>,
    order: Seq<usize>,
    i: int,
    j: int,
)
    requires
        is_group_order(devices, members, order),
        0 <= i < j < order.len(),
        devices[order[j] as int].is_group_leader,
    ensures
        devices[order[i] as int].is_group_leader,
{
    assert(ranks_before(devices, order[i], order[j]));
}

/// A device is among the matching ones exactly if the text means it.
pub proof fn law_matching_is_exact(
    devices: Seq<Device>,
    needle: Seq<char>,
    count: nat,
    index: usize,
)
    requires
        count <= devices.len(),
        devices.len() <= usize::MAX,
    ensures
        matching(devices, needle, count).contains(index) <==> index < count
            && devices[index as int].matches_text(needle),
    decreases count,
{
    if count > 0 {
        let before = matching(devices, needle, (count - 1) as nat);
        let all = matching(devices, needle, count);
        law_matching_is_exact(devices, needle, (count - 1) as nat, index);
        if before.contains(index) {
            let k = choose|k: int| 0 <= k < before.len() && before[k] == index;
            assert(all[k] == index);
        }
        if index == count - 1 && devices[index as int].matches_text(needle) {
            assert(all[before.len() as int] == index);
        }
        if all.contains(index) {
            let k = choose|k: int| 0 <= k < all.len() && all[k] == index;
            if k < before.len() {
                assert(before[k] == index);
            }
        }
    }
}

/// Lower case is lower case already.
proof fn lemma_lowercase_is_idempotent(text: Seq<char>)
    ensures
        text::lowercase(text::lowercase(text)) == text::lowercase(text),
{
    assert(text::lowercase(text::lowercase(text)) =~= text::lowercase(text));
}

/// The case of a text's ASCII letters does not change which devices it means.
pub proof fn law_matching_ignores_case(device: Device, needle: Seq<char>)
    ensures
        device.matches_text(text::lowercase(needle)) == device.matches_text(needle),
{
    lemma_lowercase_is_idempotent(needle);
}

/// The empty text means every device.
pub proof fn law_empty_text_means_every_device(device: Device)
    ensures
        device.matches_text(Seq::empty()),
{
    let low = text::lowercase(Seq::empty());
    let name = text::lowercase(device.name@);
    assert(low =~= Seq::<char>::empty());
    assert(name.subrange(0, 0) =~= low);
    assert(text::occurs_at(name, low, 0));
}

/// A text that means a device can be shortened: every part of it means the
/// device too.
pub proof fn law_parts_of_a_matching_text_match(
    device: Device,
    needle: Seq<char>,
    part: Seq<char>,
)
    requires
        device.matches_text(needle),
        text::occurs(needle, part),
    ensures
        device.matches_text(part),
{
    let low = text::lowercase(needle);
    let small = text::lowercase(part);
    text::law_parts_occur_in_lower_case(needle, part);
    if text::occurs(text::lowercase(device.name@), low) {
        text::law_parts_of_parts_occur(text::lowercase(device.name@), low, small);
    } else if text::occurs(text::lowercase(device.model@), low) {
        text::law_parts_of_parts_occur(text::lowercase(device.model@), low, small);
    } else if text::occurs(text::lowercase(device.group_name()), low) {
        text::law_parts_of_parts_occur(text::lowercase(device.group_name()), low, small);
    } else if text::occurs(text::lowercase(device.mac@), low) {
        text::law_parts_of_parts_occur(text::lowercase(device.mac@), low, small);
    } else {
        let i = choose|i: int|
            0 <= i < device.addresses@.len() && text::occurs(
                (#[trigger] device.addresses@[i])@,
                low,
            );
        text::law_parts_of_parts_occur(device.addresses@[i]@, low, small);
    }
}

/// The devices of a group that is selected belong together: every one of them
/// has a group, and any two have the same one.
pub proof fn law_selected_group_is_one_group(
    devices: Seq<Device>,
    members: Seq<usize>,
    order: Seq<usize>,
    i: int,
    j: int,
)
    requires
        is_group(devices, members),
        is_group_order(devices, members, order),
        0 <= i < order.len(),
        0 <= j < order.len(),
    ensures
        order.len() >= 2,
        devices[order[i] as int].group_id is Some,
        devices[order[i] as int].group_id == devices[order[j] as int].group_id,
{
    lemma_order_holds_the_members(devices, members, order);
    assert(order.contains(order[i]) && order.contains(order[j]));
    let a = choose|a: int| 0 <= a < members.len() && members[a] == order[i];
    let b = choose|b: int| 0 <= b < members.len() && members[b] == order[j];
    assert(devices[members[a] as int].group_id == devices[members[0] as int].group_id);
    assert(devices[members[b] as int].group_id == devices[members[0] as int].group_id);
}

/// Two or more devices that all belong to one group make up a group, and no
/// other devices do.
pub proof fn law_devices_of_one_group_make_it_up(devices: Seq<Device>, members: Seq<usize>)
    ensures
        is_group(devices, members) <==> members.len() >= 2 && forall|i: int, j: int|
            0 <= i < members.len() && 0 <= j < members.len() ==> {
                &&& (#[trigger] devices[members[i] as int]).group_id is Some
                &&& devices[members[i] as int].group_id == (
                #[trigger] devices[members[j] as int]).group_id
            },
{
    if is_group(devices, members) {
        assert forall|i: int, j: int| 0 <= i < members.len() && 0 <= j < members.len() implies {
            &&& (#[trigger] devices[members[i] as int]).group_id is Some
            &&& devices[members[i] as int].group_id == (
            #[trigger] devices[members[j] as int]).group_id
        } by {
            assert(devices[members[i] as int].group_id == devices[members[0] as int].group_id);
            assert(devices[members[j] as int].group_id == devices[members[0] as int].group_id);
        }
    } else if members.len() >= 2 && devices[members[0] as int].group_id is Some {
        let i = choose|i: int|
            0 <= i < members.len() && devices[#[trigger] members[i] as int].group_id
                != devices[members[0] as int].group_id;
        assert(devices[members[i] as int].group_id != devices[members[0] as int].group_id);
    } else if members.len() >= 2 {
        assert(devices[members[0] as int].group_id is None);
    }
}

/// The order of a group holds its members, all of them and nobody else.
proof fn lemma_order_holds_the_members(
    devices: Seq<Device>,
    members: Seq<usize>,
    order: Seq<usize>,
)
    requires
        is_group_order(devices, members, order),
    ensures
        order.len() == members.len(),
        forall|m: usize| #[trigger] order.contains(m) <==> members.contains(m),
{
    order.to_multiset_ensures();
    members.to_multiset_ensures();
    assert forall|m: usize| #[trigger] order.contains(m) <==> members.contains(m) by {
        vstd::seq_lib::to_multiset_contains(order, m);
        vstd::seq_lib::to_multiset_contains(members, m);
    }
}

/// The order of a group holds its members, all of them and nobody else: first
/// those who lead, each part by name, and devices of the same name as they were
/// found.
pub proof fn law_group_order_sorts_the_members(
    devices: Seq<Device>,
    members: Seq<usize>,
    order: Seq<usize>,
)
    requires
        is_group_order(devices, members, order),
    ensures
        order.len() == members.len(),
        forall|m: usize| #[trigger] order.contains(m) <==> members.contains(m),
        forall|i: int, j: int|
            0 <= i < j < order.len() ==> {
                let a = devices[(#[trigger] order[i]) as int];
                let b = devices[(#[trigger] order[j]) as int];
                &&& b.is_group_leader ==> a.is_group_leader
                &&& a.is_group_leader == b.is_group_leader ==> a.name@ == b.name@ || text_before(
                    a.name@,
                    b.name@,
                )
                &&& a.is_group_leader == b.is_group_leader && a.name@ == b.name@ ==> order[i]
                    < order[j]
            },
{
    lemma_order_holds_the_members(devices, members, order);
    assert forall|i: int, j: int| 0 <= i < j < order.len() implies {
        let a = devices[(#[trigger] order[i]) as int];
        let b = devices[(#[trigger] order[j]) as int];
        &&& b.is_group_leader ==> a.is_group_leader
        &&& a.is_group_leader == b.is_group_leader ==> a.name@ == b.name@ || text_before(
            a.name@,
            b.name@,
        )
        &&& a.is_group_leader == b.is_group_leader && a.name@ == b.name@ ==> order[i] < order[j]
    } by {
        assert(ranks_before(devices, order[i], order[j]));
    }
}

/// Of two texts that differ for the first time in one character, the one with
/// the smaller character comes first, whatever follows.
pub proof fn law_first_difference_decides(
    same: Seq<char>,
    c: char,
    d: char,
    a: Seq<char>,
    b: Seq<char>,
)
    requires
        c != d,
    ensures
        text_before(same + seq![c] + a, same + seq![d] + b) <==> (c as u32) < (d as u32),
    decreases same.len(),
{
    let x = same + seq![c] + a;
    let y = same + seq![d] + b;
    if same.len() > 0 {
        assert(x.drop_first() =~= same.drop_first() + seq![c] + a);
        assert(y.drop_first() =~= same.drop_first() + seq![d] + b);
        assert(x.first() == same.first() && y.first() == same.first());
        law_first_difference_decides(same.drop_first(), c, d, a, b);
    } else {
        assert(x.first() == c && y.first() == d);
    }
}

/// A text comes before its continuations, and never before itself or what it
/// continues.
pub proof fn law_shorter_text_comes_first(text: Seq<char>, more: Seq<char>)
    ensures
        text_before(text, text + more) <==> more.len() > 0,
        !text_before(text + more, text),
    decreases text.len(),
{
    if text.len() > 0 {
        assert((text + more).drop_first() =~= text.drop_first() + more);
        law_shorter_text_comes_first(text.drop_first(), more);
    } else {
        assert(text + more =~= more);
    }
}

/// All devices that a text means belong to the same group.
pub open spec fn matches_are_one_group(devices: Seq<Device>, target: Seq<char>) -> bool {
    forall|i: int, j: int|
        0 <= i < devices.len() && 0 <= j < devices.len() && (#[trigger] devices[i]).matches_text(
            target,
        ) && (#[trigger] devices[j]).matches_text(target) ==> devices[i].group_id is Some
            && devices[i].group_id == devices[j].group_id
}

/// The selection goes by the devices that the text means and by nothing else: one
/// device if it is the only one that the text means, a group if all that the
/// text means make one up, and otherwise an error.
pub proof fn law_selection_goes_by_the_matches(
    devices: Seq<Device>,
    target: Seq<char>,
    selected: Result<AirPlayTarget, SelectError>,
)
    requires
        devices.len() <= usize::MAX,
        is_selection(devices, target, selected),
    ensures
        selected matches Ok(AirPlayTarget::Single(index)) ==> {
            &&& index < devices.len()
            &&& forall|i: int|
                0 <= i < devices.len() ==> ((#[trigger] devices[i]).matches_text(target) <==> i
                    == index)
        },
        selected matches Ok(AirPlayTarget::Group(order)) ==> {
            &&& order@.len() >= 2
            &&& forall|i: usize|
                #[trigger] order@.contains(i) <==> i < devices.len()
                    && devices[i as int].matches_text(target)
            &&& matches_are_one_group(devices, target)
        },
        selected matches Err(SelectError::NoMatch { target: text }) ==> {
            &&& text@ == target
            &&& forall|i: int|
                0 <= i < devices.len() ==> !(#[trigger] devices[i]).matches_text(target)
        },
        selected matches Err(SelectError::Ambiguous { target: text, names }) ==> {
            &&& text@ == target
            &&& exists|i: int, j: int|
                0 <= i < j < devices.len() && (#[trigger] devices[i]).matches_text(target) && (
                #[trigger] devices[j]).matches_text(target)
            &&& !matches_are_one_group(devices, target)
        },
{
    let members = matching(devices, target, devices.len());
    lemma_matching_rises(devices, target, devices.len());
    assert forall|i: usize| #[trigger] members.contains(i) <==> i < devices.len()
        && devices[i as int].matches_text(target) by {
        law_matching_is_exact(devices, target, devices.len(), i);
    }
    if members.len() >= 2 {
        lemma_one_group(devices, target, members);
    }
    match selected {
        Ok(AirPlayTarget::Single(index)) => {
            assert(members[0] == index);
            assert(members.contains(index));
            assert forall|i: int| 0 <= i < devices.len() implies ((
            #[trigger] devices[i]).matches_text(target) <==> i == index) by {
                assert(members.contains(i as usize) <==> devices[i].matches_text(target));
                if members.contains(i as usize) {
                    let k = choose|k: int| 0 <= k < members.len() && members[k] == i as usize;
                    assert(k == 0);
                }
            }
        },
        Ok(AirPlayTarget::Group(order)) => {
            lemma_order_holds_the_members(devices, members, order@);
        },
        Err(SelectError::NoMatch { target: text }) => {
            assert forall|i: int| 0 <= i < devices.len() implies !(
            #[trigger] devices[i]).matches_text(target) by {
                assert(members.contains(i as usize) <==> devices[i].matches_text(target));
            }
        },
        Err(SelectError::Ambiguous { target: text, names }) => {
            assert(members.contains(members[0]) && members.contains(members[1]));
            assert(members[0] < members[1]);
            assert(devices[members[0] as int].matches_text(target));
            assert(devices[members[1] as int].matches_text(target));
        },
    }
}

/// The matching devices are of one group if and only if their indices say so.
proof fn lemma_one_group(devices: Seq<Device>, target: Seq<char>, members: Seq<usize>)
    requires
        devices.len() <= usize::MAX,
        members.len() >= 2,
        forall|i: usize| #[trigger]
            members.contains(i) <==> i < devices.len() && devices[i as int].matches_text(target),
    ensures
        is_group(devices, members) <==> matches_are_one_group(devices, target),
{
    law_devices_of_one_group_make_it_up(devices, members);
    if is_group(devices, members) {
        assert forall|i: int, j: int|
            0 <= i < devices.len() && 0 <= j < devices.len() && (
            #[trigger] devices[i]).matches_text(target) && (#[trigger] devices[j]).matches_text(
                target,
            ) implies devices[i].group_id is Some && devices[i].group_id == devices[j].group_id by {
            assert(members.contains(i as usize) && members.contains(j as usize));
            let k = choose|k: int| 0 <= k < members.len() && members[k] == i as usize;
            let l = choose|l: int| 0 <= l < members.len() && members[l] == j as usize;
            assert(devices[members[k] as int].group_id == devices[members[l] as int].group_id);
        }
    }
    if matches_are_one_group(devices, target) {
        assert forall|i: int, j: int| 0 <= i < members.len() && 0 <= j < members.len() implies {
            &&& (#[trigger] devices[members[i] as int]).group_id is Some
            &&& devices[members[i] as int].group_id == (
            #[trigger] devices[members[j] as int]).group_id
        } by {
            assert(members.contains(members[i]) && members.contains(members[j]));
            assert(devices[members[i] as int].matches_text(target));
            assert(devices[members[j] as int].matches_text(target));
        }
    }
}

/// A part of a device's name, model, group name or hardware address means the
/// device, in whatever case its ASCII letters are written.
pub proof fn law_part_of_a_name_means_the_device(
    device: Device,
    before: Seq<char>,
    part: Seq<char>,
    after: Seq<char>,
    needle: Seq<char>,
)
    requires
        ({
            let whole = before + part + after;
            ||| whole == device.name@
            ||| whole == device.model@
            ||| whole == device.mac@
            ||| device.group_public_name matches Some(name) && whole == name@
        }),
        text::lowercase(needle) == text::lowercase(part),
    ensures
        device.matches_text(needle),
{
    text::law_middle_is_a_part(before, part, after);
    text::law_parts_occur_in_lower_case(before + part + after, part);
}

/// A part of any of a device's network addresses, in lower case, means the
/// device.
pub proof fn law_part_of_an_address_means_the_device(
    device: Device,
    i: int,
    before: Seq<char>,
    part: Seq<char>,
    after: Seq<char>,
    needle: Seq<char>,
)
    requires
        0 <= i < device.addresses@.len(),
        device.addresses@[i]@ == before + part + after,
        text::lowercase(needle) == part,
    ensures
        device.matches_text(needle),
{
    text::law_middle_is_a_part(before, part, after);
    assert(text::occurs(device.addresses@[i]@, part));
}

/// A text means a device only by its name, model, group name, hardware address
/// or network addresses: what else is known of the device plays no part, and
/// where none of these holds as many characters the device is not meant.
pub proof fn law_nothing_else_means_the_device(
    device: Device,
    other: Device,
    needle: Seq<char>,
    longest: nat,
)
    ensures
        device.name@ == other.name@ && device.model@ == other.model@ && device.mac@ == other.mac@
            && device.group_name() == other.group_name() && device.addresses == other.addresses
            ==> device.matches_text(needle) == other.matches_text(needle),
        device.name@.len() <= longest && device.model@.len() <= longest && device.mac@.len()
            <= longest && device.group_name().len() <= longest && (forall|i: int|
            0 <= i < device.addresses@.len() ==> (#[trigger] device.addresses@[i])@.len()
                <= longest) && needle.len() > longest ==> !device.matches_text(needle),
{
    if device.matches_text(needle) && needle.len() > longest {
        let low = text::lowercase(needle);
        if exists|i: int|
            0 <= i < device.addresses@.len() && text::occurs(
                (#[trigger] device.addresses@[i])@,
                low,
            ) {
            let i = choose|i: int|
                0 <= i < device.addresses@.len() && text::occurs(
                    (#[trigger] device.addresses@[i])@,
                    low,
                );
            assert(device.addresses@[i]@.len() >= low.len());
        }
    }
}

/// Each device found has a line of its own, which the others do not change; no
/// device at all has one line too.
pub proof fn law_each_device_has_its_line(devices: Seq<Device>, i: int)
    requires
        0 <= i < devices.len(),
    ensures
        discover_lines(devices).len() == devices.len(),
        discover_lines(devices)[i] == discover_lines(seq![devices[i]])[0],
        discover_lines(Seq::empty()).len() == 1,
{
}

/// The line of a device holds its name, its model, where it is reached and what
/// it speaks, with tabulators between them.
pub proof fn law_line_of_a_device_has_four_fields(device: Device)
    requires
        !device.name@.contains('\t'),
        !device.model@.contains('\t'),
        device.socket_addr matches Some(addr) ==> !addr@.contains('\t'),
    ensures
        ({
            let fields = split::pieces(discover_line(device), split::Separator::One('\t'));
            &&& fields.len() == 4
            &&& fields[0] == device.name@
            &&& fields[1] == device.model@
            &&& device.socket_addr matches Some(addr) ==> fields[2] == addr@
            &&& device.socket_addr is None ==> fields[2] == "<no address>"@
            &&& fields[3] == "AirPlay2"@ <==> device.supports_airplay2
            &&& fields[3] == "RAOP"@ <==> !device.supports_airplay2 && device.supports_raop
            &&& fields[3] == "unknown"@ <==> !device.supports_airplay2 && !device.supports_raop
        }),
{
    reveal_strlit("\t");
    reveal_strlit("<no address>");
    reveal_strlit("AirPlay2");
    reveal_strlit("RAOP");
    reveal_strlit("unknown");
    let addr = match device.socket_addr {
        Some(addr) => addr@,
        None => "<no address>"@,
    };
    let fields = seq![device.name@, device.model@, addr, protocol(device)];
    assert("\t"@ =~= seq!['\t']);
    reveal_with_fuel(split::joined, 5);
    let f3 = fields.drop_last();
    let f2 = f3.drop_last();
    let f1 = f2.drop_last();
    assert(f1.len() == 1 && f1.last() == device.name@);
    assert(f2.last() == device.model@ && f3.last() == addr && fields.last() == protocol(device));
    assert(split::joined(fields, seq!['\t']) =~= discover_line(device));
    assert forall|i: int| 0 <= i < fields.len() implies !(#[trigger] fields[i]).contains('\t') by {
        if i == 0 {
            assert(fields[i] == device.name@);
        } else if i == 1 {
            assert(fields[i] == device.model@);
        } else if i == 2 {
            assert(fields[i] == addr);
        } else {
            assert(fields[i] == protocol(device));
        }
    }
    split::law_pieces_of_joined_are_the_texts(fields, '\t');
    assert("AirPlay2"@.len() == 8 && "RAOP"@.len() == 4 && "unknown"@.len() == 7);
}

/// The names of an ambiguous selection are those of the devices, one each and in
/// order; the error quotes the text that was looked for.
pub proof fn law_errors_name_what_was_found(
    devices: Seq<Device>,
    members: Seq<usize>,
    i: int,
    target: String,
    names: String,
)
    requires
        0 <= i < members.len(),
    ensures
        names_of(devices, members).len() == members.len(),
        names_of(devices, members)[i] == devices[members[i] as int].name@,
        (SelectError::NoMatch { target }).words() == "no AirPlay device matched '"@ + target@ + "'"@,
        (SelectError::Ambiguous { target, names }).words() == "AirPlay match '"@ + target@
            + "' is ambiguous: "@ + names@,
{
}

} // verus!
