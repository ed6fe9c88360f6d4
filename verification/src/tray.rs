//! Listing the items of the system tray.

use crate::desktop::{entry_views, DesktopEntry, EntryView};
use crate::number::{
    decimal, i32_to_string, is_digit, lemma_decimal_chars, lemma_decimal_injective, lemma_short_decimal,
    u32_to_string,
};
use crate::resolve::{
    argument_words, arguments, law_first_word_decides, process_words, resolve_entry, window_match,
    word_match,
};
use crate::text::{
    alphanumeric, chars_of, concat2, find, find_from, in_uppercase, law_find, lemma_cut_at_first,
    lemma_find, lowercase, same, starts_with, text_of, texts, to_uppercase,
};
use crate::tray_menu::SEPARATOR;
use vstd::prelude::*;
use vstd::string::*;

verus! {

/// A text with its first character, where it has one, replaced by `first`.
pub open spec fn first_replaced(s: Seq<char>, first: Seq<char>) -> Seq<char> {
    if s.len() == 0 {
        Seq::empty()
    } else {
        first + s.skip(1)
    }
}

/// A text with its first character in uppercase.
pub open spec fn capitalized(s: Seq<char>) -> Seq<char> {
    first_replaced(s, in_uppercase(s[0]))
}

/// `s` with its first character, where it has one, replaced by `first`.
pub fn replace_first(s: &str, first: &str) -> (r: String)
    ensures
        r@ == first_replaced(s@, first@),
{
    let n: usize = s.unicode_len();
    if n == 0 {
        String::new()
    } else {
        let rest = s.substring_char(1, n);
        assert(rest@ == s@.skip(1));
        concat2(first, rest)
    }
}

/// Uppercases the first character. What follows it stays, and only an empty text is empty
/// afterwards.
pub fn capitalize(s: &str) -> (r: String)
    ensures
        r@ == capitalized(s@),
        r@.len() == 0 <==> s@.len() == 0,
{
    if s.is_empty() {
        String::new()
    } else {
        let upper = to_uppercase(s.get_char(0));
        replace_first(s, upper.as_str())
    }
}

/// What follows the first character of a text stays when the text is capitalized. To capitalize
/// a text that is empty or begins with an ASCII character twice is to do it once; for any
/// other text this holds if and only if the first character of its uppercase equivalent is its
/// own uppercase equivalent.
pub proof fn law_capitalized_twice(s: Seq<char>)
    ensures
        capitalized(Seq::empty()) == Seq::<char>::empty(),
        s.len() > 0 ==> capitalized(s) == in_uppercase(s[0]) + s.skip(1),
        s.len() == 0 || s[0] <= '\u{7f}' ==> capitalized(capitalized(s)) == capitalized(s),
        s.len() > 0 && in_uppercase(s[0]).len() > 0 ==> (capitalized(capitalized(s)) == capitalized(
            s,
        ) <==> in_uppercase(in_uppercase(s[0])[0]) == seq![in_uppercase(s[0])[0]]),
{
    if s.len() > 0 {
        let upper = in_uppercase(s[0]);
        let once = capitalized(s);
        if upper.len() > 0 {
            let again = in_uppercase(upper[0]);
            let twice = capitalized(once);
            assert(once[0] == upper[0]);
            assert(twice == again + once.skip(1));
            if twice == once {
                assert(twice.len() == again.len() + once.len() - 1);
                assert(again.len() == 1);
                assert(again[0] == twice[0]);
                assert(again == seq![upper[0]]);
            }
            if again == seq![upper[0]] {
                assert(twice == once);
            }
        }
    }
}

/// The bus name of a registered item: what precedes the first slash.
pub open spec fn item_bus(item: Seq<char>) -> Seq<char> {
    item.take(find(item, '/'))
}

/// The object path of a registered item: what begins with the first slash, or the usual
/// path where the item is a bus name only.
pub open spec fn item_path(item: Seq<char>) -> Seq<char> {
    if item.contains('/') {
        item.skip(find(item, '/'))
    } else {
        "/StatusNotifierItem"@
    }
}

/// The bus name and the object path of a registered item.
pub fn split_item(item: &str) -> (r: (String, String))
    ensures
        r.0@ == item_bus(item@),
        r.1@ == item_path(item@),
{
    let chars = chars_of(item);
    let n: usize = chars.len();
    let i: usize = find_from(&chars, 0, '/');
    proof {
        assert(chars@.skip(0) == chars@);
        lemma_find(item@, '/');
    }
    let bus = text_of(&chars, 0, i);
    if i < n {
        (bus, text_of(&chars, i, n))
    } else {
        (bus, "/StatusNotifierItem".to_owned())
    }
}

/// A character of an element of a bus name.
pub open spec fn bus_name_char(c: char) -> bool {
    alphanumeric(c) || c == '_' || c == '-'
}

/// A unique name: a colon, then elements with a dot between them, none of which but the
/// first and the last is empty.
pub open spec fn unique_name(s: Seq<char>) -> bool {
    &&& s.len() > 0 && s[0] == ':'
    &&& forall|i: int| 1 <= i < s.len() ==> #[trigger] s[i] == '.' || bus_name_char(s[i])
    &&& forall|i: int| 1 <= i < s.len() && s[i - 1] == '.' ==> #[trigger] s[i] != '.'
    &&& s.contains('.')
}

/// A well-known name: at least two elements with a dot between them. No element begins
/// with a digit, and none but the last is empty.
pub open spec fn well_known_name(s: Seq<char>) -> bool {
    &&& s.len() >= 3
    &&& forall|i: int| 0 <= i < s.len() ==> #[trigger] s[i] == '.' || bus_name_char(s[i])
    &&& forall|i: int|
        0 <= i < s.len() && (i == 0 || s[i - 1] == '.') ==> #[trigger] s[i] != '.' && !is_digit(
            s[i],
        )
    &&& s.contains('.')
}

/// A name that a connection to the bus can have.
pub open spec fn bus_name(s: Seq<char>) -> bool {
    s.len() <= 255 && (s == "org.freedesktop.DBus"@ || unique_name(s) || well_known_name(s))
}

/// `zbus::names::BusName::try_from` accepts a string of at most 255 characters that is the
/// name of the bus itself, a unique name or a well-known name, and no other.
#[verifier::external_body]
pub(crate) fn is_bus_name(s: &str) -> (r: bool)
    ensures
        r == bus_name(s@),
{
    zbus::names::BusName::try_from(s).is_ok()
}

/// Whether the bus is asked for the process behind an item: only where the item's bus name
/// can be one.
pub fn has_process(bus: &str) -> (r: bool)
    ensures
        r == bus_name(bus@),
{
    is_bus_name(bus)
}

/// A 32-bit number as a process id: the number with the same bits.
pub open spec fn as_pid(n: u32) -> int {
    if n <= i32::MAX {
        n as int
    } else {
        n - 0x1_0000_0000
    }
}

/// The process id behind an item, which is 0 where the bus did not give it.
pub open spec fn pid_of(bus: Seq<char>, reply: Option<u32>) -> int {
    match reply {
        Some(n) => if bus_name(bus) {
            as_pid(n)
        } else {
            0
        },
        None => 0,
    }
}

/// The process id behind an item, from what the bus replied when it was asked; 0 where it
/// did not reply or the name is none of a connection.
pub fn item_pid(bus: &str, reply: Option<u32>) -> (r: i32)
    ensures
        r == pid_of(bus@, reply),
{
    match reply {
        Some(n) => if !is_bus_name(bus) {
            0
        } else if n <= 0x7fff_ffff {
            n as i32
        } else {
            (n as i64 - 0x1_0000_0000) as i32
        },
        None => 0,
    }
}

/// What the bus names of minimized windows begin with.
pub open spec fn own_prefix() -> Seq<char> {
    "org.kde.StatusNotifierItem.minimizer.p"@
}

/// The bus name of the minimized window that this process serves.
pub fn own_bus_name(process: u32) -> (r: String)
    ensures
        r@ == own_prefix() + decimal(process as int),
{
    concat2("org.kde.StatusNotifierItem.minimizer.p", u32_to_string(process).as_str())
}

/// Which items of the tray are listed.
pub enum TrayFilter {
    /// All of them.
    All,
    /// Minimized windows only.
    Mine,
    /// The items of other applications only.
    Native,
}

/// The filter that an argument asks for.
pub open spec fn filter_named(argument: Option<Seq<char>>) -> TrayFilter {
    if argument == Some("mine"@) {
        TrayFilter::Mine
    } else if argument == Some("native"@) {
        TrayFilter::Native
    } else {
        TrayFilter::All
    }
}

/// The filter that an argument asks for; all items where it asks for none.
pub fn parse_filter(argument: Option<&str>) -> (r: TrayFilter)
    ensures
        r == filter_named(
            match argument {
                Some(a) => Some(a@),
                None => None,
            },
        ),
{
    match argument {
        Some(a) => if same(a, "mine") {
            TrayFilter::Mine
        } else if same(a, "native") {
            TrayFilter::Native
        } else {
            TrayFilter::All
        },
        None => TrayFilter::All,
    }
}

/// An item on this bus name is listed.
pub open spec fn kept(filter: TrayFilter, bus: Seq<char>) -> bool {
    match filter {
        TrayFilter::All => true,
        TrayFilter::Mine => own_prefix().is_prefix_of(bus),
        TrayFilter::Native => !own_prefix().is_prefix_of(bus),
    }
}

/// Whether an item on this bus name is listed.
pub fn keeps(filter: &TrayFilter, bus: &str) -> (r: bool)
    ensures
        r == kept(*filter, bus@),
{
    match filter {
        TrayFilter::All => true,
        TrayFilter::Mine => starts_with(bus, "org.kde.StatusNotifierItem.minimizer.p"),
        TrayFilter::Native => !starts_with(bus, "org.kde.StatusNotifierItem.minimizer.p"),
    }
}

/// The name and the icon that an item is listed with: those that were found for it, else
/// its id, capitalized, and the icon of a plain add-on.
pub open spec fn listed_as(found: Option<(Seq<char>, Seq<char>)>, capital_id: Seq<char>) -> (
    Seq<char>,
    Seq<char>,
) {
    match found {
        Some(pair) => pair,
        None => (capital_id, "application-x-addon"@),
    }
}

/// The name and the icon that an item is listed with, from those that were found for it and
/// its capitalized id.
pub fn name_and_icon(found: Option<(String, String)>, capital_id: String) -> (r: (String, String))
    ensures
        (r.0@, r.1@) == listed_as(crate::resolve::pair_view(found), capital_id@),
{
    match found {
        Some((name, icon)) => (name, icon),
        None => (capital_id, "application-x-addon".to_owned()),
    }
}

/// A line of name, icon, bus name, object path and process id.
pub open spec fn tray_fields(
    name: Seq<char>,
    icon: Seq<char>,
    bus: Seq<char>,
    path: Seq<char>,
    pid: int,
) -> Seq<char> {
    name + seq![SEPARATOR] + (icon + seq![SEPARATOR] + (bus + seq![SEPARATOR] + (path + seq![
        SEPARATOR,
    ] + decimal(pid))))
}

/// A line of name, icon, bus name, object path and process id.
pub fn tray_line(name: &str, icon: &str, bus: &str, path: &str, pid: i32) -> (r: String)
    ensures
        r@ == tray_fields(name@, icon@, bus@, path@, pid as int),
{
    let mut line = name.to_owned();
    line.push(SEPARATOR);
    line.append(icon);
    line.push(SEPARATOR);
    line.append(bus);
    line.push(SEPARATOR);
    line.append(path);
    line.push(SEPARATOR);
    line.append(i32_to_string(pid).as_str());
    assert(line@ == tray_fields(name@, icon@, bus@, path@, pid as int));
    line
}

/// What a tray item and the bus said of it, and the command line of its process.
pub struct TrayReply {
    pub id: String,
    pub pid: i32,
    pub cmdline: Option<Vec<u8>>,
}

/// The line of an item. An item that gave no answer, or that the filter leaves out, has none.
pub open spec fn item_line(
    entries: Seq<EntryView>,
    filter: TrayFilter,
    item: Seq<char>,
    reply: Option<TrayReply>,
) -> Option<Seq<char>> {
    match reply {
        Some(r) => if kept(filter, item_bus(item)) {
            let found = window_match(entries, lowercase(r.id@), process_words(r.pid, r.cmdline));
            let (name, icon) = listed_as(found, capitalized(r.id@));
            Some(tray_fields(name, icon, item_bus(item), item_path(item), r.pid as int))
        } else {
            None
        },
        None => None,
    }
}

/// The lines of several items, in their order.
pub open spec fn tray_listing(
    entries: Seq<EntryView>,
    filter: TrayFilter,
    items: Seq<(String, Option<TrayReply>)>,
) -> Seq<Seq<char>>
    decreases items.len(),
{
    if items.len() == 0 {
        Seq::empty()
    } else {
        let before = tray_listing(entries, filter, items.drop_last());
        match item_line(entries, filter, items.last().0@, items.last().1) {
            Some(line) => before.push(line),
            None => before,
        }
    }
}

/// The lines of the registered items, each with its answer: one line for every item that
/// answered and that the filter keeps.
pub fn list_tray(
    entries: &Vec<DesktopEntry>,
    filter: &TrayFilter,
    items: &Vec<(String, Option<TrayReply>)>,
) -> (r: Vec<String>)
    ensures
        texts(r@) == tray_listing(entry_views(entries@), *filter, items@),
{
    let ghost es = entry_views(entries@);
    let mut out: Vec<String> = Vec::new();
    let mut i: usize = 0;
    while i < items.len()
        invariant
            es == entry_views(entries@),
            i <= items@.len(),
            texts(out@) == tray_listing(es, *filter, items@.take(i as int)),
        decreases items@.len() - i,
    {
        let ghost o = out@;
        assert(items@.take(i + 1).drop_last() == items@.take(i as int));
        assert(items@.take(i + 1).last() == items@[i as int]);
        let (bus, path) = split_item(items[i].0.as_str());
        if keeps(filter, bus.as_str()) {
            if let Some(reply) = &items[i].1 {
                let found = resolve_entry(entries, reply.id.as_str(), reply.pid, &reply.cmdline);
                let (name, icon) = name_and_icon(found, capitalize(reply.id.as_str()));
                let line = tray_line(
                    name.as_str(),
                    icon.as_str(),
                    bus.as_str(),
                    path.as_str(),
                    reply.pid,
                );
                out.push(line);
                assert(texts(out@) == texts(o).push(line@));
            }
        }
        i = i + 1;
    }
    assert(items@.take(i as int) == items@);
    out
}

/// Every item is listed with all the others, and either among the minimized windows or among
/// the items of other applications.
pub proof fn law_filters_part_the_tray(bus: Seq<char>)
    ensures
        kept(TrayFilter::All, bus),
        kept(TrayFilter::Mine, bus) <==> !kept(TrayFilter::Native, bus),
{
}

/// The bus name of a minimized window is a well-known name, and its item is listed as our own.
pub proof fn law_own_bus_name(process: u32)
    ensures
        well_known_name(own_prefix() + decimal(process as int)),
        bus_name(own_prefix() + decimal(process as int)),
        kept(TrayFilter::Mine, own_prefix() + decimal(process as int)),
{
    reveal_strlit("org.kde.StatusNotifierItem.minimizer.p");
    let p = own_prefix();
    let d = decimal(process as int);
    let s = p + d;
    lemma_decimal_chars(process as int);
    lemma_short_decimal(process);
    assert(p == s.subrange(0, p.len() as int));
    assert(s[3] == '.');
    assert forall|i: int| 0 <= i < s.len() implies #[trigger] s[i] == '.' || bus_name_char(
        s[i],
    ) by {
        if i >= p.len() {
            assert(s[i] == d[i - p.len()]);
        }
    }
    assert forall|i: int| 0 <= i < s.len() && (i == 0 || s[i - 1] == '.') implies #[trigger] s[i]
        != '.' && !is_digit(s[i]) by {
        if i > p.len() {
            assert(s[i - 1] == d[i - 1 - p.len()]);
        }
    }
    assert(well_known_name(s));
}

/// The lines of two items that are listed differ, unless the items agree in name, icon, bus
/// name, object path and process id; this holds of fields without a separator in them.
pub proof fn law_tray_line_is_unambiguous(
    a: (Seq<char>, Seq<char>, Seq<char>, Seq<char>, int),
    b: (Seq<char>, Seq<char>, Seq<char>, Seq<char>, int),
)
    requires
        tray_fields(a.0, a.1, a.2, a.3, a.4) == tray_fields(b.0, b.1, b.2, b.3, b.4),
        !a.0.contains(SEPARATOR) && !b.0.contains(SEPARATOR),
        !a.1.contains(SEPARATOR) && !b.1.contains(SEPARATOR),
        !a.2.contains(SEPARATOR) && !b.2.contains(SEPARATOR),
        !a.3.contains(SEPARATOR) && !b.3.contains(SEPARATOR),
    ensures
        a == b,
{
    let c = SEPARATOR;
    let x3 = a.3 + seq![c] + decimal(a.4);
    let y3 = b.3 + seq![c] + decimal(b.4);
    let x2 = a.2 + seq![c] + x3;
    let y2 = b.2 + seq![c] + y3;
    let x1 = a.1 + seq![c] + x2;
    let y1 = b.1 + seq![c] + y2;
    lemma_cut_at_first(a.0, x1, b.0, y1, c);
    lemma_cut_at_first(a.1, x2, b.1, y2, c);
    lemma_cut_at_first(a.2, x3, b.2, y3, c);
    lemma_cut_at_first(a.3, decimal(a.4), b.3, decimal(b.4), c);
    lemma_decimal_injective(a.4, b.4);
}

/// Items are listed in their order: the lines of a tray are those of its first items,
/// followed by those of the rest.
pub proof fn law_tray_listing_keeps_order(
    entries: Seq<EntryView>,
    filter: TrayFilter,
    a: Seq<(String, Option<TrayReply>)>,
    b: Seq<(String, Option<TrayReply>)>,
)
    ensures
        tray_listing(entries, filter, a + b) == tray_listing(entries, filter, a) + tray_listing(
            entries,
            filter,
            b,
        ),
    decreases b.len(),
{
    let la = tray_listing(entries, filter, a);
    let lb = tray_listing(entries, filter, b);
    if b.len() == 0 {
        assert(a + b == a);
        assert(la + lb == la);
    } else {
        law_tray_listing_keeps_order(entries, filter, a, b.drop_last());
        assert((a + b).drop_last() == a + b.drop_last());
        assert((a + b).last() == b.last());
        assert(tray_listing(entries, filter, a + b) == la + lb);
    }
}

/// The bus name and the object path of an item hold all of it: where the item has a slash,
/// they are the item again.
pub proof fn law_item_is_split_without_loss(item: Seq<char>)
    ensures
        item.contains('/') ==> item_bus(item) + item_path(item) == item,
        !item.contains('/') ==> item_bus(item) == item,
        !item_bus(item).contains('/'),
        item_path(item).len() > 0 && item_path(item)[0] == '/',
{
    reveal_strlit("/StatusNotifierItem");
    lemma_find(item, '/');
    let i = find(item, '/');
    assert(item.take(i) + item.skip(i) == item);
    if !item.contains('/') {
        assert(item.take(i) == item);
    }
}

/// A first character is replaced by any text, and what follows it stays; nothing is put into an
/// empty text.
pub proof fn law_first_replaced(c: char, rest: Seq<char>, first: Seq<char>)
    ensures
        first_replaced(seq![c] + rest, first) == first + rest,
        first_replaced(Seq::empty(), first) == Seq::<char>::empty(),
{
    assert((seq![c] + rest).skip(1) == rest);
}

/// A text is capitalized by its first character in uppercase, and by nothing else.
pub proof fn law_capitalized(c: char, rest: Seq<char>)
    ensures
        capitalized(seq![c] + rest) == in_uppercase(c) + rest,
        capitalized(Seq::empty()) == Seq::<char>::empty(),
{
    assert((seq![c] + rest)[0] == c);
    law_first_replaced(c, rest, in_uppercase(c));
}

/// An item is cut at its first slash, which begins the object path. An item without one is a
/// bus name, at the usual path.
pub proof fn law_item_is_cut_at_first_slash(bus: Seq<char>, rest: Seq<char>)
    requires
        !bus.contains('/'),
    ensures
        item_bus(bus + seq!['/'] + rest) == bus,
        item_path(bus + seq!['/'] + rest) == seq!['/'] + rest,
        item_bus(bus) == bus,
        item_path(bus) == "/StatusNotifierItem"@,
{
    let item = bus + seq!['/'] + rest;
    law_find(bus, rest, '/');
    assert(item[bus.len() as int] == '/');
    assert(item.contains('/'));
    assert(item.take(bus.len() as int) == bus);
    assert(item.skip(bus.len() as int) == seq!['/'] + rest);
    assert(bus.take(bus.len() as int) == bus);
}

/// The names that the bus gives to connections are names.
pub proof fn law_connection_name(m: u32, n: u32)
    ensures
        bus_name(seq![':'] + decimal(m as int) + seq!['.'] + decimal(n as int)),
{
    let a = decimal(m as int);
    let b = decimal(n as int);
    let s = seq![':'] + a + seq!['.'] + b;
    lemma_decimal_chars(m as int);
    lemma_decimal_chars(n as int);
    lemma_short_decimal(m);
    lemma_short_decimal(n);
    assert(s[0] == ':');
    assert(s[(a.len() + 1) as int] == '.');
    assert forall|i: int| 1 <= i < s.len() && i != a.len() + 1 implies #[trigger] s[i] != '.'
        && bus_name_char(s[i]) by {
        if i < a.len() + 1 {
            assert(s[i] == a[i - 1]);
        } else {
            assert(s[i] == b[i - a.len() - 2]);
        }
    }
    assert(unique_name(s));
}

/// What is a name: two or more elements of letters, digits, underscores and dashes, with dots
/// between them, where no element begins with a digit.
pub proof fn law_well_known_name(a: Seq<char>, b: Seq<char>)
    requires
        0 < a.len() && 0 < b.len() && a.len() + b.len() < 255,
        forall|i: int|
            0 <= i < a.len() ==> alphanumeric(#[trigger] a[i]) || a[i] == '_' || a[i] == '-',
        forall|i: int|
            0 <= i < b.len() ==> alphanumeric(#[trigger] b[i]) || b[i] == '_' || b[i] == '-',
        !(48 <= a[0] as int <= 57) && !(48 <= b[0] as int <= 57),
    ensures
        bus_name(a + seq!['.'] + b),
{
    let s = a + seq!['.'] + b;
    assert(s[a.len() as int] == '.');
    assert forall|i: int| 0 <= i < s.len() && i != a.len() implies #[trigger] s[i] != '.'
        && bus_name_char(s[i]) by {
        if i < a.len() {
            assert(s[i] == a[i]);
            assert(alphanumeric(a[i]) || a[i] == '_' || a[i] == '-');
        } else {
            assert(s[i] == b[i - a.len() - 1]);
            assert(alphanumeric(b[i - a.len() - 1]) || b[i - a.len() - 1] == '_' || b[i - a.len()
                - 1] == '-');
        }
    }
    assert(s[0] == a[0]);
    assert(s[(a.len() + 1) as int] == b[0]);
    assert(well_known_name(s));
}

/// What is no name: an empty text, one that is too long, one without a dot, one with two dots
/// in a row, and one with a character that no name has.
pub proof fn law_no_bus_name(s: Seq<char>, i: int)
    requires
        s.len() == 0 || s.len() > 255 || !s.contains('.') || (0 < i < s.len() && s[i - 1] == '.'
            && s[i] == '.') || (0 < i < s.len() && !alphanumeric(s[i]) && s[i] != '_' && s[i] != '-'
            && s[i] != '.'),
    ensures
        !bus_name(s),
{
    reveal_strlit("org.freedesktop.DBus");
    assert("org.freedesktop.DBus"@[3] == '.');
    assert("org.freedesktop.DBus"@.contains('.'));
}

/// The process id is the number that the bus gave, as 32 bits with a sign. It is 0 where the
/// bus gave none, or the name is none.
pub proof fn law_process_id(bus: Seq<char>, n: u32)
    ensures
        bus_name(bus) ==> -2147483648 <= pid_of(bus, Some(n)) <= 2147483647 && (n - pid_of(
            bus,
            Some(n),
        )) % 4294967296 == 0,
        !bus_name(bus) ==> pid_of(bus, Some(n)) == 0,
        pid_of(bus, None) == 0,
{
}

/// The filters by their names; anything else asks for all items.
pub proof fn law_filter_named(argument: Seq<char>)
    ensures
        filter_named(Some("mine"@)) is Mine,
        filter_named(Some("native"@)) is Native,
        filter_named(None) is All,
        argument != "mine"@ && argument != "native"@ ==> filter_named(Some(argument)) is All,
{
    reveal_strlit("mine");
    reveal_strlit("native");
    assert("mine"@.len() != "native"@.len());
}

/// Our own items are those on bus names that begin with the name under which minimized windows
/// are served; all others are those of applications.
pub proof fn law_kept(bus: Seq<char>)
    ensures
        kept(TrayFilter::All, bus),
        kept(TrayFilter::Mine, bus) <==> "org.kde.StatusNotifierItem.minimizer.p"@.is_prefix_of(bus),
        kept(TrayFilter::Native, bus) <==> !"org.kde.StatusNotifierItem.minimizer.p"@.is_prefix_of(
            bus,
        ),
        own_prefix() == "org.kde.StatusNotifierItem.minimizer.p"@,
{
}

/// What was found is what an item is listed with; only where nothing was found, its capitalized
/// id and the icon of a plain add-on stand in.
pub proof fn law_listed_as(name: Seq<char>, icon: Seq<char>, capital_id: Seq<char>)
    ensures
        listed_as(Some((name, icon)), capital_id) == (name, icon),
        listed_as(None, capital_id) == (capital_id, "application-x-addon"@),
{
}

/// A line holds name, icon, bus name, object path and process id in this order, with the ASCII
/// Unit Separator between each and the next.
pub proof fn law_tray_fields(
    name: Seq<char>,
    icon: Seq<char>,
    bus: Seq<char>,
    path: Seq<char>,
    pid: int,
)
    ensures
        tray_fields(name, icon, bus, path, pid) == name + seq!['\u{1f}'] + icon + seq!['\u{1f}'] + bus
            + seq!['\u{1f}'] + path + seq!['\u{1f}'] + decimal(pid),
{
    assert(tray_fields(name, icon, bus, path, pid) == name + seq!['\u{1f}'] + icon + seq!['\u{1f}']
        + bus + seq!['\u{1f}'] + path + seq!['\u{1f}'] + decimal(pid));
}

/// An item that answered is resolved like a window whose class is the id of the item, with the
/// command line of its process as a fallback, on whatever bus name it is: where something is
/// found, the line of the item holds that name and that icon, and else its capitalized id and
/// the icon of a plain add-on, followed by its bus name, object path and process id.
pub proof fn law_answered_item_is_resolved(
    entries: Seq<EntryView>,
    item: String,
    reply: TrayReply,
    raw: Vec<u8>,
)
    ensures
        ({
            let words = if reply.pid > 0 && reply.cmdline == Some(raw) {
                argument_words(arguments(raw@))
            } else {
                Seq::empty()
            };
            let rest = seq!['\u{1f}'] + item_bus(item@) + seq!['\u{1f}'] + item_path(item@) + seq![
                '\u{1f}',
            ] + decimal(reply.pid as int);
            let listed = tray_listing(entries, TrayFilter::All, seq![(item, Some(reply))]);
            reply.cmdline is None || reply.cmdline == Some(raw) ==> {
                &&& listed.len() == 1
                &&& window_match(entries, lowercase(reply.id@), words) matches Some((name, icon))
                    ==> listed[0] == name + seq!['\u{1f}'] + icon + rest
                &&& window_match(entries, lowercase(reply.id@), words) is None ==> listed[0]
                    == capitalized(reply.id@) + seq!['\u{1f}'] + "application-x-addon"@ + rest
            }
        }),
{
    if reply.cmdline is None || reply.cmdline == Some(raw) {
        let one = seq![(item, Some(reply))];
        let words = if reply.pid > 0 && reply.cmdline == Some(raw) {
            argument_words(arguments(raw@))
        } else {
            Seq::empty()
        };
        assert(process_words(reply.pid, reply.cmdline) == words);
        let found = window_match(entries, lowercase(reply.id@), words);
        let (name, icon) = listed_as(found, capitalized(reply.id@));
        law_tray_fields(name, icon, item_bus(item@), item_path(item@), reply.pid as int);
        lemma_listing_of_one(entries, TrayFilter::All, item, Some(reply));
        let rest = seq!['\u{1f}'] + item_bus(item@) + seq!['\u{1f}'] + item_path(item@) + seq![
            '\u{1f}',
        ] + decimal(reply.pid as int);
        assert(tray_fields(name, icon, item_bus(item@), item_path(item@), reply.pid as int) == name
            + seq!['\u{1f}'] + icon + rest);
    }
}

proof fn lemma_listing_of_one(
    entries: Seq<EntryView>,
    filter: TrayFilter,
    item: String,
    reply: Option<TrayReply>,
)
    ensures
        item_line(entries, filter, item@, reply) matches Some(line) ==> tray_listing(
            entries,
            filter,
            seq![(item, reply)],
        ) == seq![line],
        item_line(entries, filter, item@, reply) is None ==> tray_listing(
            entries,
            filter,
            seq![(item, reply)],
        ) == Seq::<Seq<char>>::empty(),
{
    let one = seq![(item, reply)];
    assert(one.drop_last() == Seq::<(String, Option<TrayReply>)>::empty());
    assert(one.last() == (item, reply));
    assert(tray_listing(entries, filter, Seq::empty()) == Seq::<Seq<char>>::empty());
}

/// An item whose id alone finds nothing is listed with the name and the icon that the first word
/// of its process's command line finds for which anything is found, whatever bus name it is on.
pub proof fn law_item_is_found_by_the_command_line(
    entries: Seq<EntryView>,
    item: String,
    reply: TrayReply,
    raw: Vec<u8>,
    k: int,
)
    requires
        window_match(entries, lowercase(reply.id@), Seq::empty()) is None,
        reply.pid > 0,
        reply.cmdline == Some(raw),
        0 <= k < argument_words(arguments(raw@)).len(),
        forall|j: int|
            0 <= j < k ==> word_match(entries, #[trigger] argument_words(arguments(raw@))[j]) is None,
        word_match(entries, argument_words(arguments(raw@))[k]) is Some,
    ensures
        ({
            let (name, icon) = word_match(entries, argument_words(arguments(raw@))[k])->0;
            tray_listing(entries, TrayFilter::All, seq![(item, Some(reply))]) == seq![
                name + seq!['\u{1f}'] + icon + seq!['\u{1f}'] + item_bus(item@) + seq!['\u{1f}']
                    + item_path(item@) + seq!['\u{1f}'] + decimal(reply.pid as int),
            ]
        }),
{
    let words = argument_words(arguments(raw@));
    law_first_word_decides(entries, lowercase(reply.id@), words, k);
    law_answered_item_is_resolved(entries, item, reply, raw);
    let (name, icon) = word_match(entries, words[k])->0;
    let rest = seq!['\u{1f}'] + item_bus(item@) + seq!['\u{1f}'] + item_path(item@) + seq!['\u{1f}']
        + decimal(reply.pid as int);
    assert(name + seq!['\u{1f}'] + icon + rest == name + seq!['\u{1f}'] + icon + seq!['\u{1f}']
        + item_bus(item@) + seq!['\u{1f}'] + item_path(item@) + seq!['\u{1f}'] + decimal(
        reply.pid as int,
    ));
}

/// A filter leaves items out and changes nothing else: an item is listed as it is without a
/// filter, or not at all. An item that gave no answer is never listed.
pub proof fn law_filter_only_leaves_out(
    entries: Seq<EntryView>,
    filter: TrayFilter,
    item: String,
    reply: TrayReply,
)
    ensures
        kept(filter, item_bus(item@)) ==> tray_listing(entries, filter, seq![(item, Some(reply))])
            == tray_listing(entries, TrayFilter::All, seq![(item, Some(reply))]),
        !kept(filter, item_bus(item@)) ==> tray_listing(
            entries,
            filter,
            seq![(item, Some(reply))],
        ).len() == 0,
        tray_listing(entries, filter, seq![(item, None)]).len() == 0,
{
    lemma_listing_of_one(entries, filter, item, Some(reply));
    lemma_listing_of_one(entries, TrayFilter::All, item, Some(reply));
    lemma_listing_of_one(entries, filter, item, None);
}

/// Which texts are names of at most 255 characters, by code point: that of the bus; those that
/// begin with a colon; and those whose elements begin with no digit. Behind the colon there are
/// letters, digits, underscores and dashes, and at least one dot, but no dot next to another;
/// and no name without a colon begins with a dot.
pub proof fn law_bus_name(s: Seq<char>)
    ensures
        ({
            let allowed = |n: int|
                48 <= n <= 57 || 65 <= n <= 90 || 97 <= n <= 122 || n == 95 || n == 45 || n == 46;
            let from: int = if s.len() > 0 && s[0] == ':' {
                1
            } else {
                0
            };
            bus_name(s) <==> s == "org.freedesktop.DBus"@ || {
                &&& 2 <= s.len() <= 255
                &&& from == 0 ==> s.len() >= 3 && s[0] != '.'
                &&& forall|i: int| from <= i < s.len() ==> allowed(#[trigger] s[i] as int)
                &&& exists|i: int| 0 <= i < s.len() && #[trigger] s[i] == '.'
                &&& forall|i: int|
                    from < i < s.len() && s[i - 1] == '.' ==> #[trigger] s[i] != '.'
                &&& from == 0 ==> forall|i: int|
                    0 <= i < s.len() && (i == 0 || s[i - 1] == '.') ==> !(48 <= #[trigger] s[i] as int
                        <= 57)
            }
        }),
{
    reveal_strlit("org.freedesktop.DBus");
    assert("org.freedesktop.DBus"@.len() == 20);
    if s != "org.freedesktop.DBus"@ && s.len() > 0 {
        if s[0] == ':' {
            assert(!well_known_name(s)) by {
                assert(!(s[0] == '.' || bus_name_char(s[0])));
            }
            if s.contains('.') {
                let k = choose|k: int| 0 <= k < s.len() && s[k] == '.';
                assert(k >= 1);
            }
        } else {
            assert(!unique_name(s));
        }
    }
}

} // verus!
