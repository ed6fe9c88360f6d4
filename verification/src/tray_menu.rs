//! Reading the menu of a tray item, one level at a time.

use crate::menu::{
    flag_prop, prop_bool, prop_string, text_prop, MenuItem, MenuItemView, PropView,
};
use crate::number::{decimal, i32_to_string, lemma_decimal_chars, lemma_decimal_injective};
use crate::text::{blank, chars_of, is_blank, lemma_cut_at_last, same, texts, white_space};
use vstd::prelude::*;
use vstd::string::*;

verus! {

/// The object path by which a tray item says that it has no menu.
pub open spec fn names_menu(path: Seq<char>) -> bool {
    path != "/"@
}

/// Whether the object path that a tray item gives for its menu names one.
pub fn has_menu(path: &str) -> (r: bool)
    ensures
        r == names_menu(path@),
{
    !same(path, "/")
}

/// A label without the markers of mnemonics: an underscore goes, a pair of ampersands is one
/// ampersand, and any other ampersand goes. Every other character stays.
pub open spec fn stripped(label: Seq<char>) -> Seq<char>
    decreases label.len(),
{
    if label.len() == 0 {
        Seq::empty()
    } else if label[0] == '&' && label.len() > 1 && label[1] == '&' {
        seq!['&'] + stripped(label.skip(2))
    } else if label[0] == '&' || label[0] == '_' {
        stripped(label.skip(1))
    } else {
        seq![label[0]] + stripped(label.skip(1))
    }
}

/// Strips GTK (`_`) and Qt (`&`) mnemonic markers from a menu label.
pub fn strip_mnemonics(label: &str) -> (r: String)
    ensures
        r@ == stripped(label@),
{
    let chars = chars_of(label);
    let n: usize = chars.len();
    let mut out = String::new();
    let mut i: usize = 0;
    assert(chars@.skip(0) == chars@);
    assert(out@ + stripped(chars@) == stripped(chars@));
    while i < n
        invariant
            n == chars@.len(),
            i <= n,
            out@ + stripped(chars@.skip(i as int)) == stripped(chars@),
        decreases n - i,
    {
        let ghost rest = chars@.skip(i as int);
        let ghost o = out@;
        let c: char = chars[i];
        assert(rest[0] == c);
        assert(rest.skip(1) == chars@.skip(i + 1));
        if c == '&' && i + 1 < n && chars[i + 1] == '&' {
            assert(rest[1] == '&');
            assert(rest.skip(2) == chars@.skip(i + 2));
            out.push('&');
            assert(o + (seq!['&'] + stripped(rest.skip(2))) == out@ + stripped(rest.skip(2)));
            i = i + 2;
        } else if c == '&' || c == '_' {
            assert(!(rest[0] == '&' && rest.len() > 1 && rest[1] == '&'));
            i = i + 1;
        } else {
            out.push(c);
            assert(o + (seq![c] + stripped(rest.skip(1))) == out@ + stripped(rest.skip(1)));
            i = i + 1;
        }
    }
    assert(chars@.skip(i as int).len() == 0);
    assert(out@ + stripped(chars@.skip(i as int)) == out@);
    out
}

/// `s` without `c`.
pub open spec fn without(s: Seq<char>, c: char) -> Seq<char>
    decreases s.len(),
{
    if s.len() == 0 {
        Seq::empty()
    } else if s[0] == c {
        without(s.skip(1), c)
    } else {
        seq![s[0]] + without(s.skip(1), c)
    }
}

/// `s` without `c`.
pub fn remove_char(s: &str, c: char) -> (r: String)
    ensures
        r@ == without(s@, c),
{
    let chars = chars_of(s);
    let mut out = String::new();
    let mut i: usize = 0;
    assert(chars@.skip(0) == chars@);
    assert(out@ + without(chars@, c) == without(chars@, c));
    while i < chars.len()
        invariant
            i <= chars@.len(),
            out@ + without(chars@.skip(i as int), c) == without(chars@, c),
        decreases chars@.len() - i,
    {
        let ghost rest = chars@.skip(i as int);
        let ghost o = out@;
        assert(rest[0] == chars@[i as int]);
        assert(rest.skip(1) == chars@.skip(i + 1));
        if chars[i] != c {
            out.push(chars[i]);
            assert(o + (seq![rest[0]] + without(rest.skip(1), c)) == out@ + without(
                rest.skip(1),
                c,
            ));
        }
        i = i + 1;
    }
    assert(chars@.skip(i as int).len() == 0);
    assert(out@ + without(chars@.skip(i as int), c) == out@);
    out
}

/// The separator of the fields of a line: the ASCII Unit Separator.
pub const SEPARATOR: char = '\u{1f}';

/// A label as it is shown: without markers of mnemonics and without separators.
pub open spec fn shown(label: Seq<char>) -> Seq<char> {
    without(stripped(label), SEPARATOR)
}

/// The label that an entry is listed under; `None` where the entry is a separator, hidden,
/// disabled, or has no label or a blank one.
pub open spec fn listed_label(item: MenuItemView) -> Option<Seq<char>> {
    match text_prop(item.props, "label"@) {
        Some(label) => if text_prop(item.props, "type"@) == Some("separator"@) || !flag_prop(
            item.props,
            "visible"@,
            true,
        ) || !flag_prop(item.props, "enabled"@, true) || blank(shown(label)) {
            None
        } else {
            Some(shown(label))
        },
        None => None,
    }
}

/// Whether an entry is navigated into or clicked.
pub open spec fn kind(item: MenuItemView) -> Seq<char> {
    if text_prop(item.props, "children-display"@) == Some("submenu"@) {
        "submenu"@
    } else {
        "item"@
    }
}

/// A line of label, id and kind.
pub open spec fn menu_fields(label: Seq<char>, id: int, kind: Seq<char>) -> Seq<char> {
    label + seq![SEPARATOR] + decimal(id) + seq![SEPARATOR] + kind
}

/// The line of an entry that is listed.
pub open spec fn entry_line(item: MenuItemView) -> Option<Seq<char>> {
    match listed_label(item) {
        Some(label) => Some(menu_fields(label, item.id, kind(item))),
        None => None,
    }
}

/// The line of a menu entry: its label, its id and its kind, which is "submenu" where it is
/// to be navigated into and "item" where it is to be clicked. `None` where it is not listed.
pub fn menu_line(item: &MenuItem) -> (r: Option<String>)
    ensures
        match r {
            Some(line) => entry_line(item@) == Some(line@),
            None => entry_line(item@) is None,
        },
{
    if let Some(t) = prop_string(&item.props, "type") {
        if same(t.as_str(), "separator") {
            return None;
        }
    }
    if !prop_bool(&item.props, "visible", true) || !prop_bool(&item.props, "enabled", true) {
        return None;
    }
    let label = match prop_string(&item.props, "label") {
        Some(l) => remove_char(strip_mnemonics(l.as_str()).as_str(), SEPARATOR),
        None => {
            return None;
        },
    };
    if is_blank(label.as_str()) {
        return None;
    }
    let submenu: bool = match prop_string(&item.props, "children-display") {
        Some(d) => same(d.as_str(), "submenu"),
        None => false,
    };
    let kind = if submenu {
        "submenu"
    } else {
        "item"
    };
    let mut line = label;
    line.push(SEPARATOR);
    line.append(i32_to_string(item.id).as_str());
    line.push(SEPARATOR);
    line.append(kind);
    assert(line@ == menu_fields(listed_label(item@)->0, item.id as int, kind@));
    Some(line)
}

/// What the children of a menu hold; `None` stands for a child that is no menu entry.
pub open spec fn child_views(s: Seq<Option<MenuItem>>) -> Seq<Option<MenuItemView>> {
    Seq::new(
        s.len(),
        |i: int|
            match s[i] {
                Some(item) => Some(item@),
                None => None,
            },
    )
}

/// The lines of the children that are listed, in their order.
pub open spec fn listing(children: Seq<Option<MenuItemView>>) -> Seq<Seq<char>>
    decreases children.len(),
{
    if children.len() == 0 {
        Seq::empty()
    } else {
        let before = listing(children.drop_last());
        match children.last() {
            Some(item) => match entry_line(item) {
                Some(line) => before.push(line),
                None => before,
            },
            None => before,
        }
    }
}

/// The lines of a menu's children, one for each that is listed.
pub fn menu_lines(children: &Vec<Option<MenuItem>>) -> (r: Vec<String>)
    ensures
        texts(r@) == listing(child_views(children@)),
{
    let mut out: Vec<String> = Vec::new();
    let ghost all = child_views(children@);
    let mut i: usize = 0;
    while i < children.len()
        invariant
            all == child_views(children@),
            i <= children@.len(),
            texts(out@) == listing(all.take(i as int)),
        decreases children@.len() - i,
    {
        let ghost o = out@;
        assert(all.take(i + 1).drop_last() == all.take(i as int));
        assert(all.take(i + 1).last() == all[i as int]);
        if let Some(item) = &children[i] {
            if let Some(line) = menu_line(item) {
                out.push(line);
                assert(texts(out@) == texts(o).push(line@));
            }
        }
        i = i + 1;
    }
    assert(all.take(i as int) == all);
    out
}

/// The event by which a menu entry is triggered.
pub struct ClickEvent {
    pub id: i32,
    pub event_id: String,
    pub data: String,
    pub timestamp: u32,
}

/// The event that triggers the entry with this id of the menu at `path`; `None` where the
/// path names no menu.
pub fn click_event(path: &str, id: i32) -> (r: Option<ClickEvent>)
    ensures
        match r {
            Some(event) => names_menu(path@) && event.id == id && event.event_id@ == "clicked"@
                && event.data@ == ""@ && event.timestamp == 0,
            None => !names_menu(path@),
        },
{
    if has_menu(path) {
        Some(
            ClickEvent { id, event_id: "clicked".to_owned(), data: "".to_owned(), timestamp: 0 },
        )
    } else {
        None
    }
}

proof fn lemma_kind_has_no_separator(item: MenuItemView)
    ensures
        !kind(item).contains(SEPARATOR),
{
    reveal_strlit("submenu");
    reveal_strlit("item");
}

/// A line says which entry it stands for: entries with the same line are listed under the
/// same label, with the same id and the same kind, whatever the label holds.
pub proof fn law_line_is_unambiguous(a: MenuItemView, b: MenuItemView)
    requires
        entry_line(a) is Some,
        entry_line(a) == entry_line(b),
    ensures
        listed_label(a) == listed_label(b),
        a.id == b.id,
        kind(a) == kind(b),
{
    let l = listed_label(a)->0;
    let m = listed_label(b)->0;
    lemma_kind_has_no_separator(a);
    lemma_kind_has_no_separator(b);
    lemma_decimal_chars(a.id);
    lemma_decimal_chars(b.id);
    lemma_cut_at_last(
        l + seq![SEPARATOR] + decimal(a.id),
        kind(a),
        m + seq![SEPARATOR] + decimal(b.id),
        kind(b),
        SEPARATOR,
    );
    assert(!decimal(a.id).contains(SEPARATOR));
    assert(!decimal(b.id).contains(SEPARATOR));
    lemma_cut_at_last(l, decimal(a.id), m, decimal(b.id), SEPARATOR);
    lemma_decimal_injective(a.id, b.id);
}

/// Separators, hidden and disabled entries, and entries without a label or with a blank one,
/// are left out; every other entry is listed.
pub proof fn law_what_is_listed(item: MenuItemView)
    ensures
        text_prop(item.props, "type"@) == Some("separator"@) ==> entry_line(item) is None,
        !flag_prop(item.props, "visible"@, true) ==> entry_line(item) is None,
        !flag_prop(item.props, "enabled"@, true) ==> entry_line(item) is None,
        text_prop(item.props, "label"@) is None ==> entry_line(item) is None,
        entry_line(item) is Some <==> (text_prop(item.props, "type"@) != Some("separator"@)
            && flag_prop(item.props, "visible"@, true) && flag_prop(item.props, "enabled"@, true) && (
        text_prop(item.props, "label"@) matches Some(label) && !blank(shown(label)))),
{
}

/// Entries are listed in their order: the lines of a menu are those of its first entries,
/// followed by those of the rest.
pub proof fn law_listing_keeps_order(
    a: Seq<Option<MenuItemView>>,
    b: Seq<Option<MenuItemView>>,
)
    ensures
        listing(a + b) == listing(a) + listing(b),
    decreases b.len(),
{
    if b.len() == 0 {
        assert(a + b == a);
        assert(listing(a) + listing(b) == listing(a));
    } else {
        law_listing_keeps_order(a, b.drop_last());
        assert((a + b).drop_last() == a + b.drop_last());
        assert((a + b).last() == b.last());
        assert(listing(a + b) == listing(a) + listing(b));
    }
}

/// No underscore is left in a stripped label.
pub proof fn law_stripped_has_no_underscore(label: Seq<char>)
    ensures
        !stripped(label).contains('_'),
    decreases label.len(),
{
    if label.len() > 0 {
        law_stripped_has_no_underscore(label.skip(1));
        if label.len() > 1 {
            law_stripped_has_no_underscore(label.skip(2));
        }
        if stripped(label).contains('_') {
            let k = choose|k: int| 0 <= k < stripped(label).len() && stripped(label)[k] == '_';
            if label[0] == '&' && label.len() > 1 && label[1] == '&' {
                assert(k > 0 ==> stripped(label.skip(2))[k - 1] == '_');
            } else if label[0] == '&' || label[0] == '_' {
                assert(stripped(label.skip(1))[k] == '_');
            } else {
                assert(k > 0 ==> stripped(label.skip(1))[k - 1] == '_');
            }
        }
    }
}

/// Nothing gets into a label by stripping it but an ampersand.
pub proof fn law_stripping_adds_no_character(label: Seq<char>, c: char)
    requires
        c != '&',
        !label.contains(c),
    ensures
        !stripped(label).contains(c),
    decreases label.len(),
{
    if label.len() > 0 {
        let n: int = if label[0] == '&' && label.len() > 1 && label[1] == '&' {
            2
        } else {
            1
        };
        let rest = label.skip(n);
        assert forall|j: int| 0 <= j < rest.len() implies rest[j] != c by {
            assert(label[n + j] != c);
        }
        law_stripping_adds_no_character(rest, c);
        assert(label[0] != c);
        if stripped(label).contains(c) {
            let k = choose|k: int| 0 <= k < stripped(label).len() && stripped(label)[k] == c;
            if stripped(label) != stripped(rest) {
                assert(k > 0 ==> stripped(rest)[k - 1] == c);
            }
        }
    }
}

/// Nothing but `c` is taken out, and all of it: the parts of a text are freed from it one by
/// one.
pub proof fn law_without(a: Seq<char>, b: Seq<char>, c: char)
    ensures
        !without(a, c).contains(c),
        without(a + b, c) == without(a, c) + without(b, c),
        !a.contains(c) ==> without(a, c) == a,
    decreases a.len(),
{
    if a.len() == 0 {
        assert(a + b == b);
        assert(without(a, c) + without(b, c) == without(b, c));
        assert(without(a, c) == a);
    } else {
        let rest = a.skip(1);
        law_without(rest, b, c);
        assert((a + b)[0] == a[0]);
        assert((a + b).skip(1) == rest + b);
        if a[0] != c {
            assert(seq![a[0]] + (without(rest, c) + without(b, c)) == without(a, c) + without(b, c));
            if without(a, c).contains(c) {
                let k = choose|k: int| 0 <= k < without(a, c).len() && without(a, c)[k] == c;
                assert(without(rest, c)[k - 1] == c);
            }
        }
        if !a.contains(c) {
            assert(a[0] != c);
            assert forall|j: int| 0 <= j < rest.len() implies rest[j] != c by {
                assert(a[j + 1] != c);
            }
            assert(a == seq![a[0]] + rest);
        }
    }
}

/// A separator never appears inside a label that is listed: the line of an entry holds exactly
/// the two separators between its fields.
pub proof fn law_label_holds_no_separator(item: MenuItemView)
    requires
        entry_line(item) is Some,
    ensures
        ({
            let label = listed_label(item)->0;
            let line = entry_line(item)->0;
            &&& !label.contains(SEPARATOR)
            &&& forall|i: int|
                0 <= i < line.len() ==> (#[trigger] line[i] == SEPARATOR <==> i == label.len() || i
                    == label.len() + 1 + decimal(item.id).len())
        }),
{
    let label = listed_label(item)->0;
    let line = entry_line(item)->0;
    let number = decimal(item.id);
    law_without(stripped(text_prop(item.props, "label"@)->0), Seq::empty(), SEPARATOR);
    lemma_kind_has_no_separator(item);
    lemma_decimal_chars(item.id);
    assert forall|i: int| 0 <= i < line.len() implies (#[trigger] line[i] == SEPARATOR <==> i
        == label.len() || i == label.len() + 1 + number.len()) by {
        if i < label.len() {
            assert(line[i] == label[i]);
        } else if label.len() < i < label.len() + 1 + number.len() {
            assert(line[i] == number[i - label.len() - 1]);
        } else if i > label.len() + 1 + number.len() {
            assert(line[i] == kind(item)[i - label.len() - number.len() - 2]);
        }
    }
}

/// A character that a label is not stripped of.
pub open spec fn plain(c: char) -> bool {
    c != '&' && c != '_'
}

/// What precedes the first marker of a label stays as it is.
pub proof fn law_plain_text_is_kept(text: Seq<char>, label: Seq<char>)
    requires
        forall|i: int| 0 <= i < text.len() ==> plain(#[trigger] text[i]),
    ensures
        stripped(text + label) == text + stripped(label),
    decreases text.len(),
{
    if text.len() == 0 {
        assert(text + label == label);
        assert(text + stripped(label) == stripped(label));
    } else {
        let rest = text.skip(1);
        assert forall|i: int| 0 <= i < rest.len() implies plain(#[trigger] rest[i]) by {
            assert(plain(text[i + 1]));
        }
        law_plain_text_is_kept(rest, label);
        assert(plain(text[0]));
        assert((text + label)[0] == text[0]);
        assert((text + label).skip(1) == rest + label);
        assert(seq![text[0]] + (rest + stripped(label)) == text + stripped(label));
    }
}

/// `s` with each pair of ampersands, from the left, replaced by `mark`.
pub open spec fn pairs_marked(s: Seq<char>, mark: char) -> Seq<char>
    decreases s.len(),
{
    if s.len() == 0 {
        Seq::empty()
    } else if s[0] == '&' && s.len() > 1 && s[1] == '&' {
        seq![mark] + pairs_marked(s.skip(2), mark)
    } else {
        seq![s[0]] + pairs_marked(s.skip(1), mark)
    }
}

/// `s` with each `c` replaced by `d`.
pub open spec fn with_replaced(s: Seq<char>, c: char, d: char) -> Seq<char> {
    Seq::new(
        s.len(),
        |i: int|
            if s[i] == c {
                d
            } else {
                s[i]
            },
    )
}

proof fn lemma_without_first(x: char, s: Seq<char>, c: char)
    ensures
        without(seq![x] + s, c) == if x == c {
            without(s, c)
        } else {
            seq![x] + without(s, c)
        },
{
    assert((seq![x] + s).skip(1) == s);
}

proof fn lemma_replaced_first(x: char, s: Seq<char>, c: char, d: char)
    ensures
        with_replaced(seq![x] + s, c, d) == seq![
            if x == c {
                d
            } else {
                x
            },
        ] + with_replaced(s, c, d),
{
}

/// To strip a label is to put a mark, any character that the label does not hold, for each pair
/// of ampersands, to take the other ampersands out, to put an ampersand for each mark, and to
/// take the underscores out.
pub proof fn law_stripped_in_steps(label: Seq<char>, mark: char)
    requires
        plain(mark),
        !label.contains(mark),
    ensures
        stripped(label) == without(
            with_replaced(without(pairs_marked(label, mark), '&'), mark, '&'),
            '_',
        ),
    decreases label.len(),
{
    if label.len() > 0 {
        let paired = label[0] == '&' && label.len() > 1 && label[1] == '&';
        let n: int = if paired {
            2
        } else {
            1
        };
        let rest = label.skip(n);
        let first = if paired {
            mark
        } else {
            label[0]
        };
        assert(label[0] != mark);
        assert forall|j: int| 0 <= j < rest.len() implies rest[j] != mark by {
            assert(label[n + j] != mark);
        }
        law_stripped_in_steps(rest, mark);
        let marked = pairs_marked(rest, mark);
        assert(pairs_marked(label, mark) == seq![first] + marked);
        lemma_without_first(first, marked, '&');
        let kept = without(marked, '&');
        if first != '&' {
            lemma_replaced_first(first, kept, mark, '&');
            let shown = if first == mark {
                '&'
            } else {
                first
            };
            lemma_without_first(shown, with_replaced(kept, mark, '&'), '_');
        }
    } else {
        assert(with_replaced(Seq::<char>::empty(), mark, '&') == Seq::<char>::empty());
    }
}

/// The one object path that names no menu is the slash alone.
pub proof fn law_only_the_root_names_no_menu(path: Seq<char>)
    ensures
        !names_menu(path) <==> path.len() == 1 && path[0] == '/',
{
    reveal_strlit("/");
    if path.len() == 1 && path[0] == '/' {
        assert(path == "/"@);
    }
}

/// Labels are stripped from left to right: a pair of ampersands leaves one, an ampersand before
/// anything else leaves nothing, an underscore leaves nothing, and any other character stays.
pub proof fn law_stripped_from_the_left(c: char, rest: Seq<char>)
    ensures
        stripped(Seq::empty()) == Seq::<char>::empty(),
        stripped(seq!['&', '&'] + rest) == seq!['&'] + stripped(rest),
        rest.len() == 0 || rest[0] != '&' ==> stripped(seq!['&'] + rest) == stripped(rest),
        stripped(seq!['_'] + rest) == stripped(rest),
        c != '&' && c != '_' ==> stripped(seq![c] + rest) == seq![c] + stripped(rest),
{
    let pair = seq!['&', '&'] + rest;
    assert(pair[0] == '&' && pair[1] == '&');
    assert(pair.skip(2) == rest);
    let single = seq!['&'] + rest;
    assert(single.skip(1) == rest);
    assert(rest.len() > 0 ==> single[1] == rest[0]);
    assert((seq!['_'] + rest).skip(1) == rest);
    assert((seq![c] + rest).skip(1) == rest);
}

/// Taking a character out of a text leaves nothing in its place and all else as it was.
pub proof fn law_taken_out(s: Seq<char>, c: char)
    ensures
        without(seq![c], c) == Seq::<char>::empty(),
        without(s, c) == s.filter(|x: char| x != c),
    decreases s.len(),
{
    let keep = |x: char| x != c;
    assert(without(seq![c], c) == Seq::<char>::empty()) by {
        assert(seq![c].skip(1) == Seq::<char>::empty());
        assert(without(Seq::empty(), c) == Seq::<char>::empty());
    }
    reveal(Seq::filter);
    if s.len() > 0 {
        let init = s.drop_last();
        law_taken_out(init, c);
        law_without(init, seq![s.last()], c);
        assert(s == init + seq![s.last()]);
        let x = s.last();
        assert(seq![x].skip(1) == Seq::<char>::empty());
        assert(without(Seq::empty(), c) == Seq::<char>::empty());
        if x == c {
            assert(without(seq![x], c) == Seq::<char>::empty());
            assert(without(s, c) == without(init, c));
        } else {
            assert(without(seq![x], c) == seq![x]);
            assert(without(s, c) == without(init, c).push(x));
        }
        assert(s.filter(keep) == if keep(x) {
            init.filter(keep).push(x)
        } else {
            init.filter(keep)
        });
    }
}

/// A label is shown as what is left of it when it is stripped, without the ASCII Unit Separator.
pub proof fn law_shown(label: Seq<char>)
    ensures
        shown(label) == stripped(label).filter(|c: char| c as int != 31),
{
    law_taken_out(stripped(label), SEPARATOR);
    assert((|c: char| c as int != 31) =~= (|x: char| x != SEPARATOR));
}

/// An entry with a label that is not blank as it is shown is listed, unless it is a separator,
/// hidden or disabled. Its line is the label, its id, and whether it opens a submenu, with the
/// ASCII Unit Separator between them.
pub proof fn law_line_of_an_entry(item: MenuItemView, label: Seq<char>)
    requires
        item.props.contains_key("label"@),
        item.props["label"@] == PropView::Text(label),
        !(item.props.contains_key("type"@) && item.props["type"@]
            == PropView::Text("separator"@)),
        !(item.props.contains_key("visible"@) && item.props["visible"@]
            == PropView::Flag(false)),
        !(item.props.contains_key("enabled"@) && item.props["enabled"@]
            == PropView::Flag(false)),
        exists|i: int| 0 <= i < shown(label).len() && !white_space(#[trigger] shown(label)[i]),
    ensures
        item.props.contains_key("children-display"@) && item.props["children-display"@]
            == PropView::Text("submenu"@) ==> listing(seq![Some(item)]) == seq![
            shown(label) + seq!['\u{1f}'] + decimal(item.id) + seq!['\u{1f}'] + "submenu"@,
        ],
        !(item.props.contains_key("children-display"@) && item.props["children-display"@]
            == PropView::Text("submenu"@)) ==> listing(seq![Some(item)]) == seq![
            shown(label) + seq!['\u{1f}'] + decimal(item.id) + seq!['\u{1f}'] + "item"@,
        ],
{
    let one = seq![Some(item)];
    assert(one.drop_last() == Seq::<Option<MenuItemView>>::empty());
    assert(listing(Seq::empty()) == Seq::<Seq<char>>::empty());
    assert(one.last() == Some(item));
    assert(!blank(shown(label)));
    assert(listing(one) == seq![entry_line(item)->0]);
}

/// An entry is not listed where it is a separator, hidden or disabled, where it has no label,
/// or where nothing but white space is shown of its label; nor is a child that is no entry.
pub proof fn law_entry_without_a_line(item: MenuItemView)
    requires
        ({
            ||| item.props.contains_key("type"@) && item.props["type"@]
                == PropView::Text("separator"@)
            ||| item.props.contains_key("visible"@) && item.props["visible"@]
                == PropView::Flag(false)
            ||| item.props.contains_key("enabled"@) && item.props["enabled"@]
                == PropView::Flag(false)
            ||| !(item.props.contains_key("label"@) && item.props["label"@] is Text)
            ||| forall|i: int|
                0 <= i < shown(item.props["label"@]->Text_0).len() ==> white_space(
                    #[trigger] shown(item.props["label"@]->Text_0)[i],
                )
        }),
    ensures
        listing(seq![Some(item)]) == Seq::<Seq<char>>::empty(),
        listing(seq![None]) == Seq::<Seq<char>>::empty(),
{
    let one = seq![Some(item)];
    let none = seq![None::<MenuItemView>];
    assert(one.drop_last() == Seq::<Option<MenuItemView>>::empty());
    assert(none.drop_last() == Seq::<Option<MenuItemView>>::empty());
    assert(listing(Seq::empty()) == Seq::<Seq<char>>::empty());
}

/// The line of one entry alone is what the listing of that entry holds.
pub proof fn law_listing_of_one(item: MenuItemView)
    ensures
        entry_line(item) matches Some(line) ==> listing(seq![Some(item)]) == seq![line],
        entry_line(item) is None ==> listing(seq![Some(item)]).len() == 0,
{
    let one = seq![Some(item)];
    assert(one.drop_last() == Seq::<Option<MenuItemView>>::empty());
    assert(listing(Seq::empty()) == Seq::<Seq<char>>::empty());
}

/// The children of a menu are read in their order, each for what it holds.
pub proof fn law_child_views(s: Seq<Option<MenuItem>>, i: int)
    ensures
        child_views(s).len() == s.len(),
        0 <= i < s.len() ==> child_views(s)[i] == match s[i] {
            Some(item) => Some(MenuItemView { id: item.id as int, props: item.props@ }),
            None => None,
        },
{
}

} // verus!
