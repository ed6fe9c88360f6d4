//! The registry of a StatusNotifierWatcher: which tray items there are.

use crate::text::{concat2, lemma_find_is, same, starts_with, texts};
use crate::number::decimal;
use crate::tray::{
    bus_name_char, item_bus, item_path, kept, law_own_bus_name, own_prefix, split_item, TrayFilter,
};
use vstd::prelude::*;
use vstd::string::*;

verus! {

/// The entry of an item that registers: `service` is either an object path of the sender
/// or a bus name.
pub open spec fn entry_of(service: Seq<char>, sender: Seq<char>) -> Seq<char> {
    if service.len() > 0 && service[0] == '/' {
        sender + service
    } else {
        service + "/StatusNotifierItem"@
    }
}

/// The entry of an item that registers.
pub fn registration_entry(service: &str, sender: &str) -> (r: String)
    ensures
        r@ == entry_of(service@, sender@),
{
    proof {
        reveal_strlit("/");
        if service@.len() > 0 {
            assert("/"@ == service@.subrange(0, 1) <==> service@[0] == '/') by {
                assert("/"@[0] == '/');
                assert(service@.subrange(0, 1)[0] == service@[0]);
                if service@[0] == '/' {
                    assert("/"@ =~= service@.subrange(0, 1));
                }
            }
        }
    }
    if starts_with(service, "/") {
        concat2(sender, service)
    } else {
        concat2(service, "/StatusNotifierItem")
    }
}

/// Whether one of the strings is `text`.
fn holds(strings: &Vec<String>, text: &str) -> (r: bool)
    ensures
        r == texts(strings@).contains(text@),
{
    let ghost all = texts(strings@);
    let mut i: usize = 0;
    while i < strings.len()
        invariant
            all == texts(strings@),
            i <= strings@.len(),
            forall|j: int| 0 <= j < i ==> all[j] != text@,
        decreases strings@.len() - i,
    {
        if same(strings[i].as_str(), text) {
            assert(all[i as int] == text@);
            return true;
        }
        i = i + 1;
    }
    false
}

/// The items after one registers. An item that is known already is not added again.
pub open spec fn with_item(items: Seq<Seq<char>>, entry: Seq<char>) -> Seq<Seq<char>> {
    if items.contains(entry) {
        items
    } else {
        items.push(entry)
    }
}

/// The items of a bus name.
pub open spec fn items_of(items: Seq<Seq<char>>, name: Seq<char>) -> Seq<Seq<char>> {
    items.filter(|entry: Seq<char>| item_bus(entry) == name)
}

/// The items of all other bus names.
pub open spec fn items_of_others(items: Seq<Seq<char>>, name: Seq<char>) -> Seq<Seq<char>> {
    items.filter(|entry: Seq<char>| item_bus(entry) != name)
}

/// The registered items, in the order in which they registered. No item occurs twice.
pub struct Watcher {
    items: Vec<String>,
}

impl View for Watcher {
    type V = Seq<Seq<char>>;

    closed spec fn view(&self) -> Seq<Seq<char>> {
        texts(self.items@)
    }
}

impl Watcher {
    #[verifier::type_invariant]
    spec fn well_formed(self) -> bool {
        texts(self.items@).no_duplicates()
    }

    /// A watcher that knows no item.
    pub fn new() -> (r: Watcher)
        ensures
            r@ == Seq::<Seq<char>>::empty(),
    {
        let r = Watcher { items: Vec::new() };
        assert(r@ =~= Seq::<Seq<char>>::empty());
        r
    }

    /// Registers an item and returns the entry to announce; `None` where the item is known
    /// already. A message without a sender has an empty one.
    pub fn register_status_notifier_item(&mut self, service: &str, sender: Option<&str>) -> (r:
        Option<String>)
        ensures
            ({
                let entry = entry_of(
                    service@,
                    match sender {
                        Some(s) => s@,
                        None => Seq::empty(),
                    },
                );
                &&& final(self)@ == with_item(old(self)@, entry)
                &&& match r {
                    Some(e) => !old(self)@.contains(entry) && e@ == entry,
                    None => old(self)@.contains(entry),
                }
            }),
            final(self)@.no_duplicates(),
    {
        proof {
            use_type_invariant(&*self);
        }
        let entry = match sender {
            Some(s) => registration_entry(service, s),
            None => registration_entry(service, ""),
        };
        proof {
            reveal_strlit("");
            assert(""@ =~= Seq::<char>::empty());
        }
        let ghost before = texts(self.items@);
        if holds(&self.items, entry.as_str()) {
            return None;
        }
        let mut items: Vec<String> = Vec::new();
        std::mem::swap(&mut items, &mut self.items);
        items.push(entry.clone());
        assert(texts(items@) == before.push(entry@));
        self.items = items;
        Some(entry)
    }

    /// Takes note that a bus name changed hands. Where it has no new owner, its items are
    /// dropped; they are returned, to be announced as gone.
    pub fn name_owner_changed(&mut self, name: &str, has_new_owner: bool) -> (r: Vec<String>)
        ensures
            has_new_owner ==> final(self)@ == old(self)@ && r@.len() == 0,
            !has_new_owner ==> final(self)@ == items_of_others(old(self)@, name@) && texts(r@)
                == items_of(old(self)@, name@),
            final(self)@.no_duplicates(),
    {
        proof {
            use_type_invariant(&*self);
        }
        let mut gone: Vec<String> = Vec::new();
        if has_new_owner {
            return gone;
        }
        let ghost before = texts(self.items@);
        let ghost lost = |entry: Seq<char>| item_bus(entry) == name@;
        let ghost stays = |entry: Seq<char>| item_bus(entry) != name@;
        let mut rest: Vec<String> = Vec::new();
        let n: usize = self.items.len();
        let mut i: usize = 0;
        proof {
            reveal(Seq::filter);
        }
        while i < n
            invariant
                n == self.items@.len(),
                before == texts(self.items@),
                i <= n,
                lost == (|entry: Seq<char>| item_bus(entry) == name@),
                stays == (|entry: Seq<char>| item_bus(entry) != name@),
                texts(gone@) == before.take(i as int).filter(lost),
                texts(rest@) == before.take(i as int).filter(stays),
            decreases n - i,
        {
            let ghost g = gone@;
            let ghost k = rest@;
            proof {
                reveal(Seq::filter);
                assert(before.take(i + 1).drop_last() == before.take(i as int));
                assert(before.take(i + 1).last() == before[i as int]);
            }
            let (bus, _) = split_item(self.items[i].as_str());
            if same(bus.as_str(), name) {
                gone.push(self.items[i].clone());
                assert(texts(gone@) == texts(g).push(before[i as int]));
            } else {
                rest.push(self.items[i].clone());
                assert(texts(rest@) == texts(k).push(before[i as int]));
            }
            i = i + 1;
        }
        assert(before.take(n as int) == before);
        proof {
            lemma_filter_no_duplicates(before, stays);
        }
        self.items = rest;
        gone
    }

    /// All registered items.
    pub fn registered_status_notifier_items(&self) -> (r: Vec<String>)
        ensures
            texts(r@) == self@,
            self@.no_duplicates(),
    {
        proof {
            use_type_invariant(&*self);
        }
        let mut out: Vec<String> = Vec::new();
        let mut i: usize = 0;
        while i < self.items.len()
            invariant
                i <= self.items@.len(),
                out@ == self.items@.take(i as int),
            decreases self.items@.len() - i,
        {
            out.push(self.items[i].clone());
            i = i + 1;
        }
        assert(out@ == self.items@);
        out
    }

    /// Applications show their icons only where a host is registered, so one always is.
    pub fn is_status_notifier_host_registered(&self) -> (r: bool)
        ensures
            r,
    {
        true
    }

    /// The version of the protocol.
    pub fn protocol_version(&self) -> (r: i32)
        ensures
            r == 0,
    {
        0
    }
}

proof fn lemma_filter_no_duplicates(s: Seq<Seq<char>>, pred: spec_fn(Seq<char>) -> bool)
    requires
        s.no_duplicates(),
    ensures
        s.filter(pred).no_duplicates(),
        forall|x: Seq<char>| s.filter(pred).contains(x) <==> s.contains(x) && pred(x),
    decreases s.len(),
{
    reveal(Seq::filter);
    if s.len() > 0 {
        let init = s.drop_last();
        lemma_filter_no_duplicates(init, pred);
        let f = init.filter(pred);
        assert forall|x: Seq<char>| s.contains(x) <==> init.contains(x) || x == s.last() by {
            assert(s == init.push(s.last()));
            if s.contains(x) {
                let k = choose|k: int| 0 <= k < s.len() && s[k] == x;
                if k < init.len() {
                    assert(init[k] == x);
                }
            }
            if init.contains(x) {
                let k = choose|k: int| 0 <= k < init.len() && init[k] == x;
                assert(s[k] == x);
            }
            if x == s.last() {
                assert(s[s.len() - 1] == x);
            }
        }
        if pred(s.last()) {
            assert(s.filter(pred) == f.push(s.last()));
            assert(!init.contains(s.last()));
            assert(!f.contains(s.last()));
            assert forall|x: Seq<char>| f.push(s.last()).contains(x) <==> f.contains(x) || x
                == s.last() by {
                if f.contains(x) {
                    let k = choose|k: int| 0 <= k < f.len() && f[k] == x;
                    assert(f.push(s.last())[k] == x);
                }
                assert(f.push(s.last())[f.len() as int] == s.last());
            }
        }
    }
}

/// Registering an item again changes nothing.
pub proof fn law_registering_twice(items: Seq<Seq<char>>, entry: Seq<char>)
    ensures
        with_item(items, entry).contains(entry),
        with_item(with_item(items, entry), entry) == with_item(items, entry),
{
    assert(items.push(entry)[items.len() as int] == entry);
}

/// What is registered is listed: an item is known after a registration if it was known
/// before or is the one that registered, and in no other case.
pub proof fn law_registered_is_listed(items: Seq<Seq<char>>, entry: Seq<char>, x: Seq<char>)
    ensures
        with_item(items, entry).contains(x) <==> items.contains(x) || x == entry,
{
    let after = items.push(entry);
    assert(after[items.len() as int] == entry);
    if items.contains(x) {
        let k = choose|k: int| 0 <= k < items.len() && items[k] == x;
        assert(after[k] == x);
    }
    if after.contains(x) {
        let k = choose|k: int| 0 <= k < after.len() && after[k] == x;
        if k < items.len() {
            assert(items[k] == x);
        }
    }
}

/// When a bus name is lost, exactly its items go: what stays is on another bus name, what
/// goes is on this one, and no item is in both parts or in neither.
pub proof fn law_lost_name(items: Seq<Seq<char>>, name: Seq<char>, x: Seq<char>)
    requires
        items.no_duplicates(),
    ensures
        items_of_others(items, name).contains(x) <==> items.contains(x) && item_bus(x) != name,
        items_of(items, name).contains(x) <==> items.contains(x) && item_bus(x) == name,
        items_of_others(items, name).no_duplicates(),
        items_of(items, name).no_duplicates(),
{
    lemma_filter_no_duplicates(items, |entry: Seq<char>| item_bus(entry) == name);
    lemma_filter_no_duplicates(items, |entry: Seq<char>| item_bus(entry) != name);
}

proof fn lemma_all_stay(items: Seq<Seq<char>>, name: Seq<char>)
    requires
        forall|i: int| 0 <= i < items.len() ==> item_bus(#[trigger] items[i]) != name,
    ensures
        items_of_others(items, name) == items,
    decreases items.len(),
{
    reveal(Seq::filter);
    if items.len() > 0 {
        let init = items.drop_last();
        assert forall|i: int| 0 <= i < init.len() implies item_bus(#[trigger] init[i]) != name by {
            assert(item_bus(items[i]) != name);
        }
        lemma_all_stay(init, name);
        assert(items == init.push(items.last()));
        assert(item_bus(items[items.len() - 1]) != name);
    }
}

/// An item that registers and whose bus name is then lost leaves no trace, where no other
/// item is on that name.
pub proof fn law_loss_undoes_registration(items: Seq<Seq<char>>, entry: Seq<char>)
    requires
        forall|i: int| 0 <= i < items.len() ==> item_bus(#[trigger] items[i]) != item_bus(entry),
    ensures
        items_of_others(with_item(items, entry), item_bus(entry)) == items,
        items_of(with_item(items, entry), item_bus(entry)) == seq![entry],
{
    reveal(Seq::filter);
    let name = item_bus(entry);
    if items.contains(entry) {
        let k = choose|k: int| 0 <= k < items.len() && items[k] == entry;
        assert(item_bus(items[k]) != name);
    }
    let after = items.push(entry);
    assert(after.drop_last() == items);
    assert(after.last() == entry);
    lemma_all_stay(items, name);
    lemma_none_of(items, name);
    assert(items_of(after, name) == Seq::<Seq<char>>::empty().push(entry));
    assert(items_of(after, name) == seq![entry]);
}

proof fn lemma_none_of(items: Seq<Seq<char>>, name: Seq<char>)
    requires
        forall|i: int| 0 <= i < items.len() ==> item_bus(#[trigger] items[i]) != name,
    ensures
        items_of(items, name) == Seq::<Seq<char>>::empty(),
    decreases items.len(),
{
    reveal(Seq::filter);
    if items.len() > 0 {
        let init = items.drop_last();
        assert forall|i: int| 0 <= i < init.len() implies item_bus(#[trigger] init[i]) != name by {
            assert(item_bus(items[i]) != name);
        }
        lemma_none_of(init, name);
        assert(item_bus(items[items.len() - 1]) != name);
    }
}

/// An entry is read back: an item that registers with its bus name is on that name, at the
/// usual path, and one that registers with an object path is on the name of its sender, at
/// that path. Bus names hold no slash.
pub proof fn law_entry_is_read_back(service: Seq<char>, sender: Seq<char>)
    requires
        service.contains('/') ==> service[0] == '/' && !sender.contains('/'),
    ensures
        service.contains('/') ==> item_bus(entry_of(service, sender)) == sender && item_path(
            entry_of(service, sender),
        ) == service,
        !service.contains('/') ==> item_bus(entry_of(service, sender)) == service && item_path(
            entry_of(service, sender),
        ) == "/StatusNotifierItem"@,
{
    let entry = entry_of(service, sender);
    if service.contains('/') {
        let k = sender.len() as int;
        assert(entry[k] == '/');
        assert forall|j: int| 0 <= j < k implies entry[j] != '/' by {
            assert(sender[j] != '/');
        }
        lemma_find_is(entry, '/', k);
        assert(entry.take(k) == sender);
        assert(entry.skip(k) == service);
    } else {
        reveal_strlit("/StatusNotifierItem");
        let k = service.len() as int;
        assert(service.len() > 0 ==> service[0] != '/');
        assert(entry[k] == '/');
        assert forall|j: int| 0 <= j < k implies entry[j] != '/' by {
            assert(service[j] != '/');
        }
        lemma_find_is(entry, '/', k);
        assert(entry.take(k) == service);
        assert(entry.skip(k) == "/StatusNotifierItem"@);
    }
}

/// The item of a minimized window is reached where it is served: whoever sends the
/// registration, the entry leads to the window's own bus name and to the usual path, the item
/// is listed among our own, and it goes when that bus name is lost.
pub proof fn law_own_item_is_reached(process: u32, sender: Seq<char>)
    ensures
        ({
            let own = own_prefix() + decimal(process as int);
            let entry = entry_of(own, sender);
            &&& item_bus(entry) == own
            &&& item_path(entry) == "/StatusNotifierItem"@
            &&& kept(TrayFilter::Mine, item_bus(entry))
            &&& items_of(seq![entry], own) == seq![entry]
        }),
{
    let own = own_prefix() + decimal(process as int);
    law_own_bus_name(process);
    assert forall|i: int| 0 <= i < own.len() implies own[i] != '/' by {
        assert(own[i] == '.' || bus_name_char(own[i]));
    }
    law_entry_is_read_back(own, sender);
    let entry = entry_of(own, sender);
    law_loss_undoes_registration(Seq::empty(), entry);
    assert(Seq::<Seq<char>>::empty().push(entry) == seq![entry]);
}

/// A service that begins with a slash is an object path of the sender; anything else is a bus
/// name, with the usual path.
pub proof fn law_entry_of(service: Seq<char>, sender: Seq<char>)
    ensures
        entry_of(seq!['/'] + service, sender) == sender + (seq!['/'] + service),
        service.len() == 0 || service[0] != '/' ==> entry_of(service, sender) == service
            + "/StatusNotifierItem"@,
{
    assert((seq!['/'] + service)[0] == '/');
}

/// An item that registers is put behind those that are known, and none of these is moved.
pub proof fn law_registered_behind(items: Seq<Seq<char>>, entry: Seq<char>)
    ensures
        items.contains(entry) ==> with_item(items, entry) == items,
        !items.contains(entry) ==> with_item(items, entry) == items + seq![entry],
{
    assert(items.push(entry) == items + seq![entry]);
}

/// Items go and stay one by one and keep their order: each by its own bus name, whatever else is
/// registered.
pub proof fn law_items_go_one_by_one(
    a: Seq<Seq<char>>,
    b: Seq<Seq<char>>,
    entry: Seq<char>,
    name: Seq<char>,
)
    ensures
        items_of(a + b, name) == items_of(a, name) + items_of(b, name),
        items_of_others(a + b, name) == items_of_others(a, name) + items_of_others(b, name),
        item_bus(entry) == name ==> items_of(seq![entry], name) == seq![entry] && items_of_others(
            seq![entry],
            name,
        ).len() == 0,
        item_bus(entry) != name ==> items_of_others(seq![entry], name) == seq![entry] && items_of(
            seq![entry],
            name,
        ).len() == 0,
{
    Seq::filter_distributes_over_add(a, b, |e: Seq<char>| item_bus(e) == name);
    Seq::filter_distributes_over_add(a, b, |e: Seq<char>| item_bus(e) != name);
    reveal(Seq::filter);
    let one = seq![entry];
    let none = Seq::<Seq<char>>::empty();
    assert(one.drop_last() == none);
    assert(items_of(none, name) == none);
    assert(items_of_others(none, name) == none);
    assert(none.push(entry) == one);
}

} // verus!
