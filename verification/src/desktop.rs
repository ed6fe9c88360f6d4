//! Desktop entries: what `.desktop` files say of an application's name and icon.

use crate::order::{
    lemma_lex_antisymmetric, lemma_lex_reflexive, lemma_lex_total, lemma_lex_transitive, lex_le,
    text_le,
};
use crate::text::{
    concat2, lines, lines_of, lowercase, same, starts_with, texts, to_lowercase,
};
use vstd::prelude::*;
use vstd::relations::*;
use vstd::seq_lib::*;
use vstd::string::*;

verus! {

/// A key by which an application is found, with the application's name and icon. The icon
/// is empty where the file names none.
pub struct DesktopEntry {
    pub key: String,
    pub name: String,
    pub icon: String,
}

/// The texts of a desktop entry.
#[verifier::ext_equal]
pub struct EntryView {
    pub key: Seq<char>,
    pub name: Seq<char>,
    pub icon: Seq<char>,
}

impl View for DesktopEntry {
    type V = EntryView;

    open spec fn view(&self) -> EntryView {
        EntryView { key: self.key@, name: self.name@, icon: self.icon@ }
    }
}

/// The texts of several desktop entries.
pub open spec fn entry_views(s: Seq<DesktopEntry>) -> Seq<EntryView> {
    Seq::new(s.len(), |i: int| s[i]@)
}

/// A `.desktop` file: its name without the extension, where that is valid Unicode, and
/// its content.
pub struct DesktopFile {
    pub stem: Option<String>,
    pub content: String,
}

/// What a `.desktop` file is read for. A field is empty where the file has no value for it.
pub struct DesktopFields {
    pub name: String,
    pub icon: String,
    pub wmclass: String,
}

/// The directories that hold `.desktop` files: the system's, then the user's own.
pub fn application_dirs(home: Option<&str>) -> (r: Vec<String>)
    ensures
        texts(r@) == match home {
            Some(h) => seq!["/usr/share/applications"@, h@ + "/.local/share/applications"@],
            None => seq!["/usr/share/applications"@],
        },
{
    let mut dirs: Vec<String> = Vec::new();
    dirs.push("/usr/share/applications".to_owned());
    if let Some(h) = home {
        dirs.push(concat2(h, "/.local/share/applications"));
    }
    dirs
}

/// Whether a file with this extension is a `.desktop` file.
pub fn is_desktop_extension(extension: Option<&str>) -> (r: bool)
    ensures
        r == (extension matches Some(e) && e@ == "desktop"@),
{
    match extension {
        Some(e) => same(e, "desktop"),
        None => false,
    }
}

/// A line that gives a value, and not an empty one, to the field that `prefix` introduces.
pub open spec fn gives(line: Seq<char>, prefix: Seq<char>) -> bool {
    prefix.is_prefix_of(line) && line.len() > prefix.len()
}

/// The value of the first line that gives the field one; empty where no line does.
pub open spec fn field(lines: Seq<Seq<char>>, prefix: Seq<char>) -> Seq<char>
    decreases lines.len(),
{
    if lines.len() == 0 {
        Seq::empty()
    } else if gives(lines[0], prefix) {
        lines[0].skip(prefix.len() as int)
    } else {
        field(lines.drop_first(), prefix)
    }
}

/// The value of the first of `lines` that gives the field one; empty where none does.
fn field_of(lines: &Vec<String>, prefix: &str) -> (r: String)
    ensures
        r@ == field(texts(lines@), prefix@),
{
    let ghost all = texts(lines@);
    let mut i: usize = 0;
    assert(all.skip(0) == all);
    while i < lines.len()
        invariant
            all == texts(lines@),
            i <= lines@.len(),
            field(all, prefix@) == field(all.skip(i as int), prefix@),
        decreases lines@.len() - i,
    {
        let line = lines[i].as_str();
        let ghost rest = all.skip(i as int);
        assert(rest[0] == line@);
        if starts_with(line, prefix) {
            let n: usize = line.unicode_len();
            let m: usize = prefix.unicode_len();
            if n > m {
                let value = line.substring_char(m, n);
                assert(value@ == line@.skip(m as int));
                return value.to_owned();
            }
        }
        assert(rest.drop_first() == all.skip(i + 1));
        i = i + 1;
    }
    assert(all.skip(i as int).len() == 0);
    String::new()
}

/// Reads the fields of a `.desktop` file: for each the first value that is not empty.
pub fn parse_desktop(content: &str) -> (r: DesktopFields)
    ensures
        r.name@ == field(lines(content@), "Name="@),
        r.icon@ == field(lines(content@), "Icon="@),
        r.wmclass@ == field(lines(content@), "StartupWMClass="@),
{
    let all = lines_of(content);
    DesktopFields {
        name: field_of(&all, "Name="),
        icon: field_of(&all, "Icon="),
        wmclass: field_of(&all, "StartupWMClass="),
    }
}

/// The entries of a file with these fields: one for its window class and one for its stem,
/// as far as it has them. A file without a name has none. `class_key` is the window class
/// as it is looked up, and `stem_key` the stem.
pub open spec fn keyed(
    name: Seq<char>,
    icon: Seq<char>,
    wmclass: Seq<char>,
    class_key: Seq<char>,
    stem_key: Option<Seq<char>>,
) -> Seq<EntryView> {
    if name.len() == 0 {
        Seq::empty()
    } else {
        let by_class = if wmclass.len() > 0 {
            seq![EntryView { key: class_key, name, icon }]
        } else {
            Seq::empty()
        };
        let by_stem = match stem_key {
            Some(key) => seq![EntryView { key, name, icon }],
            None => Seq::empty(),
        };
        by_class + by_stem
    }
}

/// The text of an optional string.
pub open spec fn optional_text(s: Option<String>) -> Option<Seq<char>> {
    match s {
        Some(t) => Some(t@),
        None => None,
    }
}

/// The entries of a file with these fields, under the keys given.
pub fn keyed_entries(fields: &DesktopFields, class_key: String, stem_key: Option<String>) -> (r: Vec<
    DesktopEntry,
>)
    ensures
        entry_views(r@) == keyed(
            fields.name@,
            fields.icon@,
            fields.wmclass@,
            class_key@,
            optional_text(stem_key),
        ),
{
    let mut out: Vec<DesktopEntry> = Vec::new();
    if fields.name.as_str().is_empty() {
        return out;
    }
    if !fields.wmclass.as_str().is_empty() {
        out.push(
            DesktopEntry { key: class_key, name: fields.name.clone(), icon: fields.icon.clone() },
        );
    }
    if let Some(key) = stem_key {
        out.push(DesktopEntry { key, name: fields.name.clone(), icon: fields.icon.clone() });
    }
    out
}

/// The entries of a `.desktop` file. Keys are lowercase.
pub open spec fn file_entries(file: DesktopFile) -> Seq<EntryView> {
    let all = lines(file.content@);
    let wmclass = field(all, "StartupWMClass="@);
    keyed(
        field(all, "Name="@),
        field(all, "Icon="@),
        wmclass,
        lowercase(wmclass),
        match file.stem {
            Some(s) => Some(lowercase(s@)),
            None => None,
        },
    )
}

/// The entries of several files, one file after another.
pub open spec fn all_entries(files: Seq<DesktopFile>) -> Seq<EntryView>
    decreases files.len(),
{
    if files.len() == 0 {
        Seq::empty()
    } else {
        all_entries(files.drop_last()) + file_entries(files.last())
    }
}

/// `a` comes before `b`, or they are equal: by key, then by name, then by icon.
pub open spec fn entry_le(a: EntryView, b: EntryView) -> bool {
    if a.key != b.key {
        lex_le(a.key, b.key)
    } else if a.name != b.name {
        lex_le(a.name, b.name)
    } else {
        lex_le(a.icon, b.icon)
    }
}

/// The order of entries, as a relation.
pub open spec fn entry_order() -> spec_fn(EntryView, EntryView) -> bool {
    |a: EntryView, b: EntryView| entry_le(a, b)
}

/// The order of entries is total.
pub proof fn lemma_entry_order()
    ensures
        total_ordering(entry_order()),
{
    let r = entry_order();
    assert forall|x: EntryView| #[trigger] r(x, x) by {
        lemma_lex_reflexive(x.icon);
    }
    assert forall|x: EntryView, y: EntryView| #[trigger] r(x, y) && #[trigger] r(y, x) implies x
        == y by {
        if x.key != y.key {
            lemma_lex_antisymmetric(x.key, y.key);
        } else if x.name != y.name {
            lemma_lex_antisymmetric(x.name, y.name);
        } else {
            lemma_lex_antisymmetric(x.icon, y.icon);
        }
    }
    assert forall|x: EntryView, y: EntryView, z: EntryView| #[trigger]
        r(x, y) && #[trigger] r(y, z) implies r(x, z) by {
        if x.key != y.key && y.key != z.key {
            lemma_lex_transitive(x.key, y.key, z.key);
            if x.key == z.key {
                lemma_lex_antisymmetric(x.key, y.key);
            }
        } else if x.key == y.key && y.key == z.key {
            if x.name != y.name && y.name != z.name {
                lemma_lex_transitive(x.name, y.name, z.name);
                if x.name == z.name {
                    lemma_lex_antisymmetric(x.name, y.name);
                }
            } else if x.name == y.name && y.name == z.name {
                lemma_lex_transitive(x.icon, y.icon, z.icon);
            }
        }
    }
    assert forall|x: EntryView, y: EntryView| #[trigger] r(x, y) || #[trigger] r(y, x) by {
        lemma_lex_total(x.key, y.key);
        lemma_lex_total(x.name, y.name);
        lemma_lex_total(x.icon, y.icon);
    }
}

fn is_before(a: &DesktopEntry, b: &DesktopEntry) -> (r: bool)
    ensures
        r == entry_le(a@, b@),
{
    if !same(a.key.as_str(), b.key.as_str()) {
        text_le(a.key.as_str(), b.key.as_str())
    } else if !same(a.name.as_str(), b.name.as_str()) {
        text_le(a.name.as_str(), b.name.as_str())
    } else {
        text_le(a.icon.as_str(), b.icon.as_str())
    }
}

/// Puts `entry` into its place in a sorted list.
fn insert_sorted(list: &mut Vec<DesktopEntry>, entry: DesktopEntry)
    requires
        sorted_by(entry_views(old(list)@), entry_order()),
    ensures
        sorted_by(entry_views(final(list)@), entry_order()),
        entry_views(final(list)@).to_multiset() == entry_views(old(list)@).to_multiset().insert(
            entry@,
        ),
{
    let ghost before = entry_views(list@);
    let mut lo: usize = 0;
    let mut hi: usize = list.len();
    proof {
        lemma_entry_order();
    }
    while lo < hi
        invariant
            before == entry_views(list@),
            sorted_by(before, entry_order()),
            total_ordering(entry_order()),
            lo <= hi <= list@.len(),
            forall|i: int| 0 <= i < lo ==> entry_order()(#[trigger] before[i], entry@),
            forall|i: int| hi <= i < before.len() ==> entry_order()(entry@, #[trigger] before[i]),
        decreases hi - lo,
    {
        let mid: usize = lo + (hi - lo) / 2;
        let ghost m = before[mid as int];
        if is_before(&list[mid], &entry) {
            assert forall|i: int| 0 <= i < mid + 1 implies entry_order()(
                #[trigger] before[i],
                entry@,
            ) by {
                assert(i < mid ==> entry_order()(before[i], m));
                assert(entry_order()(m, entry@));
            }
            lo = mid + 1;
        } else {
            assert(entry_order()(m, entry@) || entry_order()(entry@, m));
            assert forall|i: int| mid <= i < before.len() implies entry_order()(
                entry@,
                #[trigger] before[i],
            ) by {
                assert(mid < i ==> entry_order()(m, before[i]));
                assert(entry_order()(entry@, m));
            }
            hi = mid;
        }
    }
    list.insert(lo, entry);
    assert(entry_views(list@) == before.insert(lo as int, entry@));
    proof {
        broadcast use vstd::seq_lib::group_to_multiset_ensures;

        assert(before.insert(lo as int, entry@).to_multiset() == before.to_multiset().insert(
            entry@,
        ));
    }
    assert forall|i: int, j: int| 0 <= i < j < entry_views(list@).len() implies #[trigger]
        entry_order()(entry_views(list@)[i], entry_views(list@)[j]) by {
        let now = entry_views(list@);
        if j < lo {
            assert(entry_order()(before[i], before[j]));
        } else if i > lo {
            assert(entry_order()(before[i - 1], before[j - 1]));
        } else if i < lo && j > lo {
            assert(entry_order()(before[i], before[j - 1]));
        } else if i == lo {
            assert(now[j] == before[j - 1]);
        } else {
            assert(now[i] == before[i]);
        }
    }
}

/// The entries in their order.
pub fn sort_entries(entries: Vec<DesktopEntry>) -> (r: Vec<DesktopEntry>)
    ensures
        sorted_by(entry_views(r@), entry_order()),
        entry_views(r@).to_multiset() == entry_views(entries@).to_multiset(),
{
    let mut rest = entries;
    let mut out: Vec<DesktopEntry> = Vec::new();
    let ghost all = entry_views(rest@).to_multiset();
    proof {
        broadcast use vstd::seq_lib::group_to_multiset_ensures;

        assert(entry_views(out@).to_multiset().len() == 0);
        assert(entry_views(out@).to_multiset() == vstd::multiset::Multiset::<EntryView>::empty());
        assert(all == entry_views(rest@).to_multiset().add(entry_views(out@).to_multiset()));
    }
    while rest.len() > 0
        invariant
            all == entry_views(rest@).to_multiset().add(entry_views(out@).to_multiset()),
            sorted_by(entry_views(out@), entry_order()),
        decreases rest@.len(),
    {
        let ghost r0 = entry_views(rest@);
        let ghost o0 = entry_views(out@);
        if let Some(e) = rest.pop() {
            insert_sorted(&mut out, e);
            assert(r0 == entry_views(rest@).push(e@));
            proof {
                broadcast use vstd::seq_lib::group_to_multiset_ensures;

                assert(r0.to_multiset() == entry_views(rest@).to_multiset().insert(e@));
                assert(all == entry_views(rest@).to_multiset().add(entry_views(out@).to_multiset()));
            }
        }
    }
    proof {
        broadcast use vstd::seq_lib::group_to_multiset_ensures;

        assert(entry_views(rest@).to_multiset().len() == 0);
        assert(entry_views(rest@).to_multiset() == vstd::multiset::Multiset::<EntryView>::empty());
        assert(all == entry_views(out@).to_multiset());
    }
    out
}

/// The entries of all the files, sorted by key, then by name, then by icon.
pub fn desktop_entries(files: &Vec<DesktopFile>) -> (r: Vec<DesktopEntry>)
    ensures
        sorted_by(entry_views(r@), entry_order()),
        entry_views(r@).to_multiset() == all_entries(files@).to_multiset(),
{
    let mut out: Vec<DesktopEntry> = Vec::new();
    let mut i: usize = 0;
    while i < files.len()
        invariant
            i <= files@.len(),
            entry_views(out@) == all_entries(files@.take(i as int)),
        decreases files@.len() - i,
    {
        let file = &files[i];
        let fields = parse_desktop(file.content.as_str());
        let class_key = to_lowercase(fields.wmclass.as_str());
        let stem_key: Option<String> = match &file.stem {
            Some(s) => Some(to_lowercase(s.as_str())),
            None => None,
        };
        let mut own = keyed_entries(&fields, class_key, stem_key);
        let ghost o0 = out@;
        let ghost w0 = own@;
        out.append(&mut own);
        assert(entry_views(out@) == entry_views(o0) + entry_views(w0));
        assert(files@.take(i + 1).drop_last() == files@.take(i as int));
        assert(files@.take(i + 1).last() == files@[i as int]);
        i = i + 1;
    }
    assert(files@.take(i as int) == files@);
    sort_entries(out)
}

proof fn lemma_take_out(files: Seq<DesktopFile>, i: int)
    requires
        0 <= i < files.len(),
    ensures
        all_entries(files).to_multiset() == all_entries(files.remove(i)).to_multiset().add(
            file_entries(files[i]).to_multiset(),
        ),
    decreases files.len(),
{
    broadcast use vstd::multiset::group_multiset_axioms;

    let init = files.drop_last();
    lemma_multiset_commutative(all_entries(init), file_entries(files.last()));
    if i == files.len() - 1 {
        assert(files.remove(i) == init);
    } else {
        lemma_take_out(init, i);
        assert(files.remove(i).drop_last() == init.remove(i));
        assert(files.remove(i).last() == files.last());
        lemma_multiset_commutative(all_entries(init.remove(i)), file_entries(files.last()));
        assert(all_entries(files).to_multiset() == all_entries(files.remove(i)).to_multiset().add(
            file_entries(files[i]).to_multiset(),
        ));
    }
}

proof fn lemma_same_files(a: Seq<DesktopFile>, b: Seq<DesktopFile>)
    requires
        a.to_multiset() == b.to_multiset(),
    ensures
        all_entries(a).to_multiset() == all_entries(b).to_multiset(),
    decreases a.len(),
{
    broadcast use vstd::seq_lib::group_to_multiset_ensures;

    assert(a.to_multiset().len() == a.len());
    assert(b.to_multiset().len() == b.len());
    if a.len() > 0 {
        assert(a.contains(a.last()));
        assert(b.to_multiset().count(a.last()) > 0);
        let i = choose|i: int| 0 <= i < b.len() && b[i] == a.last();
        assert(a.drop_last() == a.remove(a.len() - 1));
        assert(b.remove(i).to_multiset() == a.drop_last().to_multiset());
        lemma_same_files(a.drop_last(), b.remove(i));
        lemma_take_out(a, a.len() - 1);
        lemma_take_out(b, i);
    }
}

/// The list of entries does not depend on the order in which the files were come upon: two
/// lists that hold the entries of the same files, each sorted, are equal.
pub proof fn law_file_order_is_irrelevant(
    a: Seq<DesktopFile>,
    b: Seq<DesktopFile>,
    x: Seq<EntryView>,
    y: Seq<EntryView>,
)
    requires
        a.to_multiset() == b.to_multiset(),
        sorted_by(x, entry_order()),
        x.to_multiset() == all_entries(a).to_multiset(),
        sorted_by(y, entry_order()),
        y.to_multiset() == all_entries(b).to_multiset(),
    ensures
        x == y,
{
    lemma_entry_order();
    lemma_same_files(a, b);
    vstd::seq_lib::lemma_sorted_unique(x, y, entry_order());
}

/// The entry carries the name and the icon of the file, which has a name, under the lowercase
/// window class or the lowercase stem of the file.
pub open spec fn comes_from(e: EntryView, file: DesktopFile) -> bool {
    let all = lines(file.content@);
    let wmclass = field(all, "StartupWMClass="@);
    &&& e.name.len() > 0
    &&& e.name == field(all, "Name="@)
    &&& e.icon == field(all, "Icon="@)
    &&& (wmclass.len() > 0 && e.key == lowercase(wmclass)) || (file.stem matches Some(stem)
        && e.key == lowercase(stem@))
}

/// Every entry comes from one of the files.
pub proof fn law_entries_come_from_files(files: Seq<DesktopFile>, e: EntryView)
    requires
        all_entries(files).contains(e),
    ensures
        exists|i: int| 0 <= i < files.len() && comes_from(e, #[trigger] files[i]),
    decreases files.len(),
{
    let k = choose|k: int| 0 <= k < all_entries(files).len() && all_entries(files)[k] == e;
    let init = files.drop_last();
    if k < all_entries(init).len() {
        assert(all_entries(init)[k] == e);
        law_entries_come_from_files(init, e);
        let i = choose|i: int| 0 <= i < init.len() && comes_from(e, #[trigger] init[i]);
        assert(files[i] == init[i]);
    } else {
        assert(file_entries(files.last())[k - all_entries(init).len()] == e);
        assert(comes_from(e, files[files.len() - 1]));
    }
}

/// A file with a name is found by its lowercase stem, and by its lowercase window class where
/// it has one.
pub proof fn law_files_have_entries(files: Seq<DesktopFile>, i: int)
    requires
        0 <= i < files.len(),
        field(lines(files[i].content@), "Name="@).len() > 0,
    ensures
        ({
            let all = lines(files[i].content@);
            let name = field(all, "Name="@);
            let icon = field(all, "Icon="@);
            let wmclass = field(all, "StartupWMClass="@);
            &&& files[i].stem matches Some(stem) ==> all_entries(files).contains(
                EntryView { key: lowercase(stem@), name, icon },
            )
            &&& wmclass.len() > 0 ==> all_entries(files).contains(
                EntryView { key: lowercase(wmclass), name, icon },
            )
        }),
    decreases files.len(),
{
    let init = files.drop_last();
    let before = all_entries(init);
    let own = file_entries(files.last());
    let whole = all_entries(files);
    assert forall|e: EntryView| before.contains(e) || own.contains(e) implies whole.contains(e) by {
        if before.contains(e) {
            let k = choose|k: int| 0 <= k < before.len() && before[k] == e;
            assert(whole[k] == e);
        } else {
            let k = choose|k: int| 0 <= k < own.len() && own[k] == e;
            assert(whole[before.len() + k] == e);
        }
    }
    if i < init.len() {
        assert(init[i] == files[i]);
        law_files_have_entries(init, i);
    } else {
        let wmclass = field(lines(files[i].content@), "StartupWMClass="@);
        if wmclass.len() > 0 {
            assert(own[0].key == lowercase(wmclass));
            assert(own.contains(own[0]));
        }
        if files[i].stem is Some {
            assert(own[own.len() - 1].key == lowercase(files[i].stem->0@));
            assert(own.contains(own[own.len() - 1]));
        }
    }
}

/// The value of a field is that of the first line that gives one; where no line does, it is
/// empty.
pub proof fn law_field_is_first_value(lines: Seq<Seq<char>>, prefix: Seq<char>)
    ensures
        forall|i: int|
            #![trigger lines[i]]
            0 <= i < lines.len() && gives(lines[i], prefix) && (forall|j: int|
                0 <= j < i ==> !gives(#[trigger] lines[j], prefix)) ==> field(lines, prefix)
                == lines[i].skip(prefix.len() as int),
        (forall|i: int| 0 <= i < lines.len() ==> !gives(#[trigger] lines[i], prefix)) ==> field(
            lines,
            prefix,
        ).len() == 0,
    decreases lines.len(),
{
    if lines.len() > 0 && !gives(lines[0], prefix) {
        let rest = lines.drop_first();
        law_field_is_first_value(rest, prefix);
        assert forall|i: int|
            #![trigger lines[i]]
            0 <= i < lines.len() && gives(lines[i], prefix) && (forall|j: int|
                0 <= j < i ==> !gives(#[trigger] lines[j], prefix)) implies field(lines, prefix)
            == lines[i].skip(prefix.len() as int) by {
            assert(rest[i - 1] == lines[i]);
            assert forall|j: int| 0 <= j < i - 1 implies !gives(#[trigger] rest[j], prefix) by {
                assert(!gives(lines[j + 1], prefix));
            }
        }
        if forall|i: int| 0 <= i < lines.len() ==> !gives(#[trigger] lines[i], prefix) {
            assert forall|i: int| 0 <= i < rest.len() implies !gives(#[trigger] rest[i], prefix) by {
                assert(!gives(lines[i + 1], prefix));
            }
        }
    }
}

/// Entries are read in their order, each for its own key, name and icon.
pub proof fn law_entry_views(s: Seq<DesktopEntry>, i: int)
    ensures
        entry_views(s).len() == s.len(),
        0 <= i < s.len() ==> entry_views(s)[i].key == s[i].key@ && entry_views(s)[i].name
            == s[i].name@ && entry_views(s)[i].icon == s[i].icon@,
{
}

/// A field has the value that a line gives it behind the prefix, where no line before gives it
/// one that is not empty. Lines behind that one do not matter, nor do lines that give nothing.
pub proof fn law_field_value(
    before: Seq<Seq<char>>,
    value: Seq<char>,
    after: Seq<Seq<char>>,
    prefix: Seq<char>,
)
    requires
        value.len() > 0,
        forall|j: int|
            0 <= j < before.len() ==> !(prefix.is_prefix_of(#[trigger] before[j])
                && before[j].len() > prefix.len()),
    ensures
        field(before + seq![prefix + value] + after, prefix) == value,
        field(before, prefix) == Seq::<char>::empty(),
    decreases before.len(),
{
    let all = before + seq![prefix + value] + after;
    if before.len() == 0 {
        let line = prefix + value;
        assert(all[0] == line);
        assert(prefix == line.subrange(0, prefix.len() as int));
        assert(line.skip(prefix.len() as int) == value);
    } else {
        let rest = before.drop_first();
        assert forall|j: int| 0 <= j < rest.len() implies !(prefix.is_prefix_of(#[trigger] rest[j])
            && rest[j].len() > prefix.len()) by {
            assert(rest[j] == before[j + 1]);
        }
        law_field_value(rest, value, after, prefix);
        assert(all[0] == before[0]);
        assert(all.drop_first() == rest + seq![prefix + value] + after);
    }
}

/// A file has an entry under its window class and one under its stem, as far as it has them,
/// with its name and its icon; a file without a name has none.
pub proof fn law_keyed(
    name: Seq<char>,
    icon: Seq<char>,
    wmclass: Seq<char>,
    class_key: Seq<char>,
    stem_key: Seq<char>,
)
    ensures
        name.len() == 0 ==> keyed(name, icon, wmclass, class_key, Some(stem_key)).len() == 0
            && keyed(name, icon, wmclass, class_key, None).len() == 0,
        name.len() > 0 && wmclass.len() > 0 ==> {
            &&& keyed(name, icon, wmclass, class_key, Some(stem_key)) == seq![
                EntryView { key: class_key, name, icon },
                EntryView { key: stem_key, name, icon },
            ]
            &&& keyed(name, icon, wmclass, class_key, None) == seq![
                EntryView { key: class_key, name, icon },
            ]
        },
        name.len() > 0 && wmclass.len() == 0 ==> {
            &&& keyed(name, icon, wmclass, class_key, Some(stem_key)) == seq![
                EntryView { key: stem_key, name, icon },
            ]
            &&& keyed(name, icon, wmclass, class_key, None).len() == 0
        },
{
}

/// The entries of a file alone: its `Name=` and its `Icon=`, under its `StartupWMClass=` and its
/// stem in lowercase, as far as it has them; a file without a name has none.
pub proof fn law_entries_of_a_file(file: DesktopFile)
    ensures
        ({
            let all = lines(file.content@);
            let name = field(all, "Name="@);
            let icon = field(all, "Icon="@);
            let wmclass = field(all, "StartupWMClass="@);
            let own = all_entries(seq![file]);
            let by_class = EntryView { key: lowercase(wmclass), name, icon };
            &&& name.len() == 0 ==> own.len() == 0
            &&& name.len() > 0 ==> match file.stem {
                Some(stem) => own == if wmclass.len() > 0 {
                    seq![by_class, EntryView { key: lowercase(stem@), name, icon }]
                } else {
                    seq![EntryView { key: lowercase(stem@), name, icon }]
                },
                None => own == if wmclass.len() > 0 {
                    seq![by_class]
                } else {
                    Seq::empty()
                },
            }
        }),
{
    assert(seq![file].drop_last() == Seq::<DesktopFile>::empty());
    assert(all_entries(Seq::empty()) == Seq::<EntryView>::empty());
    assert(all_entries(seq![file]) == file_entries(file));
}

/// The entries of some files and some more are those of the former, then those of the latter.
pub proof fn law_entries_of_more_files(a: Seq<DesktopFile>, b: Seq<DesktopFile>)
    ensures
        all_entries(Seq::empty()) == Seq::<EntryView>::empty(),
        all_entries(a + b) == all_entries(a) + all_entries(b),
    decreases b.len(),
{
    if b.len() == 0 {
        assert(a + b == a);
        assert(all_entries(a) + all_entries(b) == all_entries(a));
    } else {
        law_entries_of_more_files(a, b.drop_last());
        assert((a + b).drop_last() == a + b.drop_last());
        assert((a + b).last() == b.last());
        assert(all_entries(a + b) == all_entries(a) + all_entries(b));
    }
}

/// In a sorted list keys ascend, under one key names do, and under one key and name icons do.
pub proof fn law_sorted_entries(x: Seq<EntryView>, i: int, j: int)
    requires
        sorted_by(x, entry_order()),
        0 <= i < j < x.len(),
    ensures
        lex_le(x[i].key, x[j].key),
        x[i].key == x[j].key ==> lex_le(x[i].name, x[j].name),
        x[i].key == x[j].key && x[i].name == x[j].name ==> lex_le(x[i].icon, x[j].icon),
{
    assert(entry_order()(x[i], x[j]));
    lemma_lex_reflexive(x[i].key);
    lemma_lex_reflexive(x[i].name);
}

/// An optional string is read for what it holds.
pub proof fn law_optional_text(s: String)
    ensures
        optional_text(Some(s)) == Some(s@),
        optional_text(None) is None,
{
}

} // verus!
