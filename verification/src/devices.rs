//! The registry of named devices, kept in the order of the names.
use vstd::prelude::*;

use crate::address::IpAddr;
use crate::model::DeviceModel;
use crate::text;

verus! {

/// A configured device: where it is reached and what it is.
#[derive(Debug, Clone, Copy, PartialEq, Eq, Structural)]
pub struct DeviceConfig {
    pub ip: IpAddr,
    pub model: DeviceModel,
}

impl View for DeviceConfig {
    type V = DeviceConfig;

    open spec fn view(&self) -> DeviceConfig {
        *self
    }
}

/// Whether `a` comes before `b` in the order of texts: at the first character in which they
/// differ `a` has the lower one, or `a` ends there.
pub open spec fn text_before(a: Seq<char>, b: Seq<char>) -> bool
    decreases a.len(),
{
    if b.len() == 0 {
        false
    } else if a.len() == 0 {
        true
    } else if a[0] != b[0] {
        a[0] < b[0]
    } else {
        text_before(a.drop_first(), b.drop_first())
    }
}

/// No text comes before itself.
pub proof fn lemma_before_irreflexive(a: Seq<char>)
    ensures
        !text_before(a, a),
    decreases a.len(),
{
    if a.len() > 0 {
        lemma_before_irreflexive(a.drop_first());
    }
}

/// What comes before an earlier text comes before a later one.
pub proof fn lemma_before_transitive(a: Seq<char>, b: Seq<char>, c: Seq<char>)
    requires
        text_before(a, b),
        text_before(b, c),
    ensures
        text_before(a, c),
    decreases a.len(),
{
    if a.len() > 0 && a[0] == b[0] && b[0] == c[0] {
        lemma_before_transitive(a.drop_first(), b.drop_first(), c.drop_first());
    }
}

/// Of two different texts one comes before the other.
pub proof fn lemma_before_total(a: Seq<char>, b: Seq<char>)
    ensures
        a == b || text_before(a, b) || text_before(b, a),
    decreases a.len(),
{
    if a.len() == 0 && b.len() == 0 {
        assert(a =~= b);
    } else if a.len() > 0 && b.len() > 0 && a[0] == b[0] {
        lemma_before_total(a.drop_first(), b.drop_first());
        if a.drop_first() == b.drop_first() {
            assert(a =~= seq![a[0]] + a.drop_first());
            assert(b =~= seq![b[0]] + b.drop_first());
        }
    }
}

/// Whether `a` comes before `b` in the order of texts.
fn comes_before(a: &str, b: &str) -> (r: bool)
    ensures
        r == text_before(a@, b@),
{
    let x = text::chars_of(a);
    let y = text::chars_of(b);
    let mut i: usize = 0;
    proof {
        assert(x@.skip(0) =~= x@);
        assert(y@.skip(0) =~= y@);
    }
    while i < x.len() && i < y.len() && x[i] == y[i]
        invariant
            i <= x.len(),
            i <= y.len(),
            text_before(x@, y@) == text_before(x@.skip(i as int), y@.skip(i as int)),
        decreases x.len() - i,
    {
        proof {
            assert(x@.skip(i as int).drop_first() =~= x@.skip(i + 1));
            assert(y@.skip(i as int).drop_first() =~= y@.skip(i + 1));
        }
        i += 1;
    }
    if i >= y.len() {
        false
    } else if i >= x.len() {
        true
    } else {
        x[i] < y[i]
    }
}

/// A device and its name.
#[derive(Debug, PartialEq, Eq)]
struct DeviceEntry {
    name: String,
    device: DeviceConfig,
}

/// Devices by name: no name occurs twice, and the devices are listed in the order of the names.
#[derive(Debug, PartialEq, Eq)]
pub struct DeviceMap {
    entries: Vec<DeviceEntry>,
}

/// The names of the entries.
closed spec fn entry_names(entries: Seq<DeviceEntry>) -> Seq<Seq<char>> {
    entries.map_values(|e: DeviceEntry| e.name@)
}

/// Whether the entries stand in the order of their names.
closed spec fn in_order(entries: Seq<DeviceEntry>) -> bool {
    forall|i: int, j: int|
        0 <= i < j < entries.len() ==> text_before(
            #[trigger] entries[i].name@,
            #[trigger] entries[j].name@,
        )
}

/// The entries as a map from names to devices.
closed spec fn entry_map(entries: Seq<DeviceEntry>) -> Map<Seq<char>, DeviceConfig> {
    Map::new(
        |n: Seq<char>| entry_names(entries).contains(n),
        |n: Seq<char>| entries[entry_names(entries).index_of(n)].device,
    )
}

impl View for DeviceMap {
    type V = Map<Seq<char>, DeviceConfig>;

    closed spec fn view(&self) -> Map<Seq<char>, DeviceConfig> {
        entry_map(self.entries@)
    }
}

/// In ordered entries a name leads to its own entry.
proof fn lemma_entry(entries: Seq<DeviceEntry>, i: int)
    requires
        in_order(entries),
        0 <= i < entries.len(),
    ensures
        entry_map(entries).contains_key(entries[i].name@),
        entry_map(entries)[entries[i].name@] == entries[i].device,
{
    let names = entry_names(entries);
    let name = entries[i].name@;
    assert(names[i] == name);
    assert(names.contains(name));
    let k = names.index_of(name);
    assert(names[k] == name);
    lemma_before_irreflexive(name);
    if k < i {
        assert(text_before(entries[k].name@, entries[i].name@));
    } else if i < k {
        assert(text_before(entries[i].name@, entries[k].name@));
    }
}

/// A name that no entry has is not in the map.
proof fn lemma_no_entry(entries: Seq<DeviceEntry>, name: Seq<char>)
    requires
        forall|i: int| 0 <= i < entries.len() ==> (#[trigger] entries[i]).name@ != name,
    ensures
        !entry_map(entries).contains_key(name),
{
    let names = entry_names(entries);
    if names.contains(name) {
        let i = choose|i: int| 0 <= i < names.len() && names[i] == name;
        assert(entries[i].name@ == name);
    }
}

impl DeviceMap {
    #[verifier::type_invariant]
    closed spec fn ordered(self) -> bool {
        in_order(self.entries@)
    }

    /// The names in the order in which the devices are listed.
    pub closed spec fn names(self) -> Seq<Seq<char>> {
        entry_names(self.entries@)
    }

    /// A registry holds finitely many names.
    pub proof fn lemma_finite(self)
        ensures
            self@.dom().finite(),
            self@.dom() == self.names().to_set(),
    {
        assert(self@.dom() =~= self.names().to_set());
        vstd::seq_lib::seq_to_set_is_finite(self.names());
    }

    /// No devices.
    pub fn new() -> (r: DeviceMap)
        ensures
            r@ == Map::<Seq<char>, DeviceConfig>::empty(),
    {
        let r = DeviceMap { entries: Vec::new() };
        proof {
            assert(r@ =~= Map::<Seq<char>, DeviceConfig>::empty());
        }
        r
    }

    /// How many devices there are.
    pub fn len(&self) -> (r: usize)
        ensures
            r == self.names().len(),
            r == self@.dom().len(),
            self@.dom().finite(),
            is_listing(self.names(), self@),
            self.names() == listing(self@),
    {
        proof {
            use_type_invariant(self);
            self.lemma_finite();
            let names = self.names();
            assert forall|i: int, j: int| 0 <= i < j < names.len() implies text_before(
                #[trigger] names[i],
                #[trigger] names[j],
            ) by {
                assert(text_before(self.entries@[i].name@, self.entries@[j].name@));
            }
            assert forall|i: int, j: int| 0 <= i < names.len() && 0 <= j < names.len() && i != j
                implies names[i] != names[j] by {
                lemma_before_irreflexive(names[i]);
                if i < j {
                    assert(text_before(names[i], names[j]));
                } else {
                    assert(text_before(names[j], names[i]));
                }
            }
            names.unique_seq_to_set();
            assert(is_listing(names, self@));
            law_listing_is_unique(names, listing(self@), self@);
        }
        self.entries.len()
    }

    /// Whether there are no devices.
    pub fn is_empty(&self) -> (r: bool)
        ensures
            r == (self@ == Map::<Seq<char>, DeviceConfig>::empty()),
    {
        let r = self.entries.len() == 0;
        proof {
            if r {
                assert(self@ =~= Map::<Seq<char>, DeviceConfig>::empty());
            } else {
                assert(self.names()[0] == self.entries@[0].name@);
                assert(self@.contains_key(self.entries@[0].name@));
            }
        }
        r
    }

    /// The first place whose name does not come before the given one.
    fn place_of(&self, name: &str) -> (r: usize)
        ensures
            r <= self.entries@.len(),
            forall|i: int| 0 <= i < r ==> text_before(#[trigger] self.entries@[i].name@, name@),
            r < self.entries@.len() ==> !text_before(self.entries@[r as int].name@, name@),
            in_order(self.entries@),
    {
        proof {
            use_type_invariant(self);
        }
        let mut i: usize = 0;
        while i < self.entries.len() && comes_before(&self.entries[i].name, name)
            invariant
                i <= self.entries@.len(),
                forall|k: int| 0 <= k < i ==> text_before(#[trigger] self.entries@[k].name@, name@),
            decreases self.entries.len() - i,
        {
            i += 1;
        }
        i
    }

    /// The place of a name, where it is taken.
    fn find(&self, name: &str) -> (r: Option<usize>)
        ensures
            r is Some == self@.contains_key(name@),
            r matches Some(i) ==> i < self.entries@.len() && self.entries@[i as int].name@ == name@
                && self.entries@[i as int].device == self@[name@],
            in_order(self.entries@),
    {
        let p = self.place_of(name);
        if p < self.entries.len() && text::same_text(&self.entries[p].name, name) {
            proof {
                lemma_entry(self.entries@, p as int);
            }
            Some(p)
        } else {
            proof {
                let entries = self.entries@;
                assert forall|i: int| 0 <= i < entries.len() implies (#[trigger] entries[i]).name@
                    != name@ by {
                    lemma_before_irreflexive(name@);
                    if i < p {
                        assert(text_before(entries[i].name@, name@));
                    } else if i > p {
                        assert(text_before(entries[p as int].name@, entries[i].name@));
                        lemma_before_total(entries[p as int].name@, name@);
                    }
                }
                lemma_no_entry(entries, name@);
            }
            None
        }
    }

    /// Whether the name is taken.
    pub fn contains_key(&self, name: &str) -> (r: bool)
        ensures
            r == self@.contains_key(name@),
    {
        self.find(name).is_some()
    }

    /// The device of that name.
    pub fn get(&self, name: &str) -> (r: Option<&DeviceConfig>)
        ensures
            r is Some == self@.contains_key(name@),
            r matches Some(d) ==> *d == self@[name@],
    {
        match self.find(name) {
            Some(i) => Some(&self.entries[i].device),
            None => None,
        }
    }

    /// The name and the device at a place in the list.
    pub fn entry(&self, i: usize) -> (r: (&String, &DeviceConfig))
        requires
            i < self.names().len(),
        ensures
            r.0@ == self.names()[i as int],
            self@.contains_key(r.0@),
            *r.1 == self@[r.0@],
    {
        proof {
            use_type_invariant(self);
            lemma_entry(self.entries@, i as int);
        }
        (&self.entries[i].name, &self.entries[i].device)
    }

    /// Whether some device has the address.
    pub fn has_address(&self, ip: IpAddr) -> (r: bool)
        ensures
            r == has_address(self@, ip),
    {
        proof {
            use_type_invariant(self);
        }
        let mut i: usize = 0;
        while i < self.entries.len()
            invariant
                i <= self.entries@.len(),
                in_order(self.entries@),
                forall|k: int|
                    0 <= k < i ==> (#[trigger] self.entries@[k]).device.ip != ip,
            decreases self.entries.len() - i,
        {
            if self.entries[i].device.ip == ip {
                proof {
                    lemma_entry(self.entries@, i as int);
                    let n = self.entries@[i as int].name@;
                    assert(self@.contains_key(n) && self@[n].ip == ip);
                }
                return true;
            }
            i += 1;
        }
        proof {
            let names = self.names();
            assert forall|n: Seq<char>| #[trigger] self@.contains_key(n) implies self@[n].ip
                != ip by {
                let k = names.index_of(n);
                assert(names.contains(n));
                assert(self@[n] == self.entries@[k].device);
            }
        }
        false
    }

    /// Gives the name to the device; what had it before is handed back.
    pub fn insert(&mut self, name: String, device: DeviceConfig) -> (r: Option<DeviceConfig>)
        ensures
            final(self)@ == old(self)@.insert(name@, device),
            r == (if old(self)@.contains_key(name@) {
                Some(old(self)@[name@])
            } else {
                None
            }),
    {
        let place = self.place_of(&name);
        let found = self.find(&name);
        let ghost before = self.entries@;
        let mut entries: Vec<DeviceEntry> = Vec::new();
        std::mem::swap(&mut entries, &mut self.entries);
        let replaced = match found {
            Some(i) => {
                let previous = entries[i].device;
                entries.set(i, DeviceEntry { name, device });
                proof {
                    lemma_replaced(before, i as int, entries@);
                }
                Some(previous)
            },
            None => {
                entries.insert(place, DeviceEntry { name, device });
                proof {
                    if place < before.len() {
                        lemma_entry(before, place as int);
                        lemma_before_total(before[place as int].name@, name@);
                    }
                    lemma_inserted(before, place as int, entries@);
                }
                None
            },
        };
        self.entries = entries;
        replaced
    }

    /// Takes the name out; what had it is handed back.
    pub fn remove(&mut self, name: &str) -> (r: Option<DeviceConfig>)
        ensures
            final(self)@ == old(self)@.remove(name@),
            r == (if old(self)@.contains_key(name@) {
                Some(old(self)@[name@])
            } else {
                None
            }),
    {
        let found = self.find(name);
        let ghost before = self.entries@;
        match found {
            Some(i) => {
                let mut entries: Vec<DeviceEntry> = Vec::new();
                std::mem::swap(&mut entries, &mut self.entries);
                let taken = entries.remove(i);
                proof {
                    lemma_removed(before, i as int, entries@);
                }
                self.entries = entries;
                Some(taken.device)
            },
            None => {
                proof {
                    assert(old(self)@.remove(name@) =~= old(self)@);
                }
                None
            },
        }
    }
}

/// Whether some device has the address.
pub open spec fn has_address(devices: Map<Seq<char>, DeviceConfig>, ip: IpAddr) -> bool {
    exists|n: Seq<char>| #[trigger] devices.contains_key(n) && devices[n].ip == ip
}

/// Every key of the map of ordered entries is some entry's name.
proof fn lemma_key(entries: Seq<DeviceEntry>, n: Seq<char>) -> (i: int)
    requires
        in_order(entries),
        entry_map(entries).contains_key(n),
    ensures
        0 <= i < entries.len(),
        entries[i].name@ == n,
        entry_map(entries)[n] == entries[i].device,
{
    let names = entry_names(entries);
    let i = names.index_of(n);
    assert(names.contains(n));
    assert(names[i] == n);
    i
}

proof fn lemma_replaced(before: Seq<DeviceEntry>, i: int, after: Seq<DeviceEntry>)
    requires
        in_order(before),
        0 <= i < before.len(),
        after.len() == before.len(),
        after == before.update(i, after[i]),
        after[i].name@ == before[i].name@,
    ensures
        in_order(after),
        entry_map(after) == entry_map(before).insert(after[i].name@, after[i].device),
{
    assert(in_order(after)) by {
        assert forall|a: int, b: int| 0 <= a < b < after.len() implies text_before(
            #[trigger] after[a].name@,
            #[trigger] after[b].name@,
        ) by {
            assert(after[a].name@ == before[a].name@);
            assert(after[b].name@ == before[b].name@);
        }
    }
    assert(entry_names(after) =~= entry_names(before));
    lemma_entry(after, i);
    lemma_entry(before, i);
    let m = entry_map(before).insert(after[i].name@, after[i].device);
    assert forall|n: Seq<char>| #[trigger] m.contains_key(n) implies entry_map(after)[n] == m[n] by {
        if n != after[i].name@ {
            let k = lemma_key(before, n);
            assert(after[k] == before[k]);
            lemma_entry(after, k);
        }
    }
    assert(entry_map(after).dom() =~= m.dom());
    assert(entry_map(after) =~= m);
}

proof fn lemma_inserted(before: Seq<DeviceEntry>, p: int, after: Seq<DeviceEntry>)
    requires
        in_order(before),
        0 <= p <= before.len(),
        after.len() == before.len() + 1,
        after == before.insert(p, after[p]),
        forall|i: int| 0 <= i < p ==> text_before(#[trigger] before[i].name@, after[p].name@),
        p < before.len() ==> text_before(after[p].name@, before[p].name@),
    ensures
        in_order(after),
        entry_map(after) == entry_map(before).insert(after[p].name@, after[p].device),
{
    let name = after[p].name@;
    assert forall|i: int| p <= i < before.len() implies text_before(
        name,
        #[trigger] before[i].name@,
    ) by {
        if i > p {
            lemma_before_transitive(name, before[p].name@, before[i].name@);
        }
    }
    assert forall|i: int| 0 <= i < p implies after[i] == before[i] by {}
    assert forall|i: int| p < i < after.len() implies after[i] == before[i - 1] by {}
    assert forall|a: int, b: int| 0 <= a < b < after.len() implies text_before(
        #[trigger] after[a].name@,
        #[trigger] after[b].name@,
    ) by {
        if b < p {
            assert(text_before(before[a].name@, before[b].name@));
        } else if b == p {
            assert(text_before(before[a].name@, name));
        } else if a < p {
            assert(text_before(before[a].name@, before[b - 1].name@));
        } else if a == p {
            assert(text_before(name, before[b - 1].name@));
        } else {
            assert(text_before(before[a - 1].name@, before[b - 1].name@));
        }
    }
    let m = entry_map(before).insert(name, after[p].device);
    lemma_entry(after, p);
    assert forall|n: Seq<char>|
        entry_map(after).dom().contains(n) == #[trigger] m.dom().contains(n) && (m.dom().contains(n)
            ==> entry_map(after)[n] == m[n]) by {
        if n != name {
            if entry_map(before).contains_key(n) {
                let k = lemma_key(before, n);
                let k2 = if k < p {
                    k
                } else {
                    k + 1
                };
                assert(after[k2] == before[k]);
                lemma_entry(after, k2);
            }
            if entry_map(after).contains_key(n) {
                let k = lemma_key(after, n);
                let k2 = if k < p {
                    k
                } else {
                    k - 1
                };
                assert(before[k2] == after[k]);
                lemma_entry(before, k2);
            }
        }
    }
    assert(entry_map(after).dom() =~= m.dom());
    assert(entry_map(after) =~= m);
}

proof fn lemma_removed(before: Seq<DeviceEntry>, p: int, after: Seq<DeviceEntry>)
    requires
        in_order(before),
        0 <= p < before.len(),
        after == before.remove(p),
    ensures
        in_order(after),
        entry_map(after) == entry_map(before).remove(before[p].name@),
{
    let name = before[p].name@;
    assert forall|i: int| 0 <= i < p implies after[i] == before[i] by {}
    assert forall|i: int| p <= i < after.len() implies after[i] == before[i + 1] by {}
    assert forall|a: int, b: int| 0 <= a < b < after.len() implies text_before(
        #[trigger] after[a].name@,
        #[trigger] after[b].name@,
    ) by {
        let a2 = if a < p {
            a
        } else {
            a + 1
        };
        let b2 = if b < p {
            b
        } else {
            b + 1
        };
        assert(text_before(before[a2].name@, before[b2].name@));
    }
    let m = entry_map(before).remove(name);
    assert forall|n: Seq<char>|
        entry_map(after).dom().contains(n) == #[trigger] m.dom().contains(n) && (m.dom().contains(n)
            ==> entry_map(after)[n] == m[n]) by {
        if n != name && entry_map(before).contains_key(n) {
            let k = lemma_key(before, n);
            let k2 = if k < p {
                k
            } else {
                k - 1
            };
            assert(after[k2] == before[k]);
            lemma_entry(after, k2);
        }
        if entry_map(after).contains_key(n) {
            let k = lemma_key(after, n);
            let k2 = if k < p {
                k
            } else {
                k + 1
            };
            assert(before[k2] == after[k]);
            lemma_entry(before, k2);
            lemma_before_irreflexive(name);
            if k2 < p {
                assert(text_before(before[k2].name@, name));
            } else {
                assert(text_before(name, before[k2].name@));
            }
        }
    }
    assert(entry_map(after).dom() =~= m.dom());
    assert(entry_map(after) =~= m);
}

/// Whether the names are those of the devices, in order.
pub open spec fn is_listing(names: Seq<Seq<char>>, devices: Map<Seq<char>, DeviceConfig>) -> bool {
    &&& names.to_set() == devices.dom()
    &&& forall|i: int, j: int|
        0 <= i < j < names.len() ==> text_before(#[trigger] names[i], #[trigger] names[j])
}

/// The names of the devices, in order.
pub open spec fn listing(devices: Map<Seq<char>, DeviceConfig>) -> Seq<Seq<char>> {
    choose|names: Seq<Seq<char>>| is_listing(names, devices)
}

/// There is only one way to list the names of the devices in order.
pub proof fn law_listing_is_unique(
    a: Seq<Seq<char>>,
    b: Seq<Seq<char>>,
    devices: Map<Seq<char>, DeviceConfig>,
)
    requires
        is_listing(a, devices),
        is_listing(b, devices),
    ensures
        a == b,
    decreases a.len(),
{
    if a.len() == 0 || b.len() == 0 {
        if a.len() > 0 {
            assert(a.to_set().contains(a[0]));
            assert(b.to_set().contains(a[0]));
        }
        if b.len() > 0 {
            assert(b.to_set().contains(b[0]));
            assert(a.to_set().contains(b[0]));
        }
        assert(a =~= b);
    } else {
        let x = a.last();
        let y = b.last();
        assert(a[a.len() - 1] == x && b[b.len() - 1] == y);
        assert(a.to_set().contains(x) && b.to_set().contains(y));
        assert(b.to_set().contains(x) && a.to_set().contains(y));
        let j = choose|j: int| 0 <= j < b.len() && b[j] == x;
        let i = choose|i: int| 0 <= i < a.len() && a[i] == y;
        if x != y {
            assert(text_before(b[j], b[b.len() - 1]));
            assert(text_before(a[i], a[a.len() - 1]));
            lemma_before_transitive(x, y, x);
            lemma_before_irreflexive(x);
        }
        lemma_listing_without_last(a, devices);
        lemma_listing_without_last(b, devices);
        law_listing_is_unique(a.drop_last(), b.drop_last(), devices.remove(x));
        assert(a =~= a.drop_last().push(x));
        assert(b =~= b.drop_last().push(x));
    }
}

proof fn lemma_listing_without_last(a: Seq<Seq<char>>, devices: Map<Seq<char>, DeviceConfig>)
    requires
        is_listing(a, devices),
        a.len() > 0,
    ensures
        is_listing(a.drop_last(), devices.remove(a.last())),
{
    let front = a.drop_last();
    let rest = devices.remove(a.last());
    assert forall|n: Seq<char>| front.to_set().contains(n) <==> rest.dom().contains(n) by {
        if front.to_set().contains(n) {
            let i = choose|i: int| 0 <= i < front.len() && front[i] == n;
            assert(a[i] == n);
            assert(a.to_set().contains(n));
            assert(text_before(a[i], a[a.len() - 1]));
            lemma_before_irreflexive(n);
        }
        if rest.dom().contains(n) {
            assert(a.to_set().contains(n));
            let i = choose|i: int| 0 <= i < a.len() && a[i] == n;
            assert(front[i] == n);
        }
    }
    assert(front.to_set() =~= rest.dom());
}

impl Clone for DeviceMap {
    fn clone(&self) -> (r: Self)
        ensures
            r@ == self@,
            r.names() == self.names(),
    {
        proof {
            use_type_invariant(self);
        }
        let mut entries: Vec<DeviceEntry> = Vec::new();
        let mut i: usize = 0;
        while i < self.entries.len()
            invariant
                i <= self.entries@.len(),
                entries@.len() == i,
                forall|k: int|
                    0 <= k < i ==> (#[trigger] entries@[k]).name@ == self.entries@[k].name@
                        && entries@[k].device == self.entries@[k].device,
            decreases self.entries.len() - i,
        {
            entries.push(
                DeviceEntry { name: self.entries[i].name.clone(), device: self.entries[i].device },
            );
            i += 1;
        }
        proof {
            let theirs = self.entries@;
            assert forall|a: int, b: int| 0 <= a < b < entries@.len() implies text_before(
                #[trigger] entries@[a].name@,
                #[trigger] entries@[b].name@,
            ) by {
                assert(text_before(theirs[a].name@, theirs[b].name@));
            }
            assert(entry_names(entries@) =~= entry_names(theirs));
            assert forall|n: Seq<char>| #[trigger] entry_map(theirs).contains_key(n) implies entry_map(
                entries@,
            )[n] == entry_map(theirs)[n] by {
                let k = lemma_key(theirs, n);
                lemma_entry(entries@, k);
            }
            assert(entry_map(entries@) =~= entry_map(theirs));
        }
        DeviceMap { entries }
    }
}

impl Default for DeviceMap {
    fn default() -> (r: Self)
        ensures
            r@ == Map::<Seq<char>, DeviceConfig>::empty(),
    {
        DeviceMap::new()
    }
}

// Laws

/// A text comes before another exactly where the two agree up to some place at which it ends and the
/// other goes on, or at which it has the lower character.
pub proof fn law_order_of_texts(a: Seq<char>, b: Seq<char>)
    ensures
        text_before(a, b) <==> exists|k: int|
            0 <= k <= a.len() && k < b.len() && #[trigger] a.take(k) == b.take(k) && (k == a.len()
                || a[k] < b[k]),
    decreases a.len(),
{
    if b.len() > 0 && (a.len() == 0 || a[0] != b[0]) {
        assert(a.take(0) =~= b.take(0));
        if exists|k: int|
            0 <= k <= a.len() && k < b.len() && #[trigger] a.take(k) == b.take(k) && (k == a.len()
                || a[k] < b[k]) {
            let k = choose|k: int|
                0 <= k <= a.len() && k < b.len() && #[trigger] a.take(k) == b.take(k) && (k
                    == a.len() || a[k] < b[k]);
            if k > 0 {
                assert(a.take(k)[0] == a[0] && b.take(k)[0] == b[0]);
            }
        }
    } else if b.len() > 0 {
        let x = a.drop_first();
        let y = b.drop_first();
        law_order_of_texts(x, y);
        if text_before(a, b) {
            let k = choose|k: int|
                0 <= k <= x.len() && k < y.len() && #[trigger] x.take(k) == y.take(k) && (k
                    == x.len() || x[k] < y[k]);
            assert(a.take(k + 1) =~= seq![a[0]] + x.take(k));
            assert(b.take(k + 1) =~= seq![b[0]] + y.take(k));
        }
        if exists|k: int|
            0 <= k <= a.len() && k < b.len() && #[trigger] a.take(k) == b.take(k) && (k == a.len()
                || a[k] < b[k]) {
            let k = choose|k: int|
                0 <= k <= a.len() && k < b.len() && #[trigger] a.take(k) == b.take(k) && (k
                    == a.len() || a[k] < b[k]);
            assert(k > 0);
            assert(x.take(k - 1) =~= a.take(k).drop_first());
            assert(y.take(k - 1) =~= b.take(k).drop_first());
        }
    }
}

/// An address is in the registry exactly where some device has it.
pub proof fn law_registered_addresses(devices: Map<Seq<char>, DeviceConfig>, ip: IpAddr)
    ensures
        has_address(devices, ip) <==> exists|n: Seq<char>| #[trigger]
            devices.contains_key(n) && devices[n].ip == ip,
{
}

/// A list of the devices holds every name once, each before those that come after it in the order of
/// texts.
pub proof fn law_listing_holds_every_name(
    names: Seq<Seq<char>>,
    devices: Map<Seq<char>, DeviceConfig>,
)
    requires
        is_listing(names, devices),
    ensures
        forall|n: Seq<char>| #[trigger] names.contains(n) <==> devices.contains_key(n),
        forall|i: int, j: int|
            0 <= i < j < names.len() ==> text_before(#[trigger] names[i], #[trigger] names[j]),
        names.no_duplicates(),
        listing(devices) == names,
{
    assert forall|n: Seq<char>| #[trigger] names.contains(n) <==> devices.contains_key(n) by {
        assert(names.contains(n) <==> names.to_set().contains(n));
        assert(devices.contains_key(n) <==> devices.dom().contains(n));
    }
    assert forall|i: int, j: int| 0 <= i < names.len() && 0 <= j < names.len() && i != j implies
        names[i] != names[j] by {
        lemma_before_irreflexive(names[i]);
        if i < j {
            assert(text_before(names[i], names[j]));
        } else {
            assert(text_before(names[j], names[i]));
        }
    }
    law_listing_is_unique(names, listing(devices), devices);
}

} // verus!
