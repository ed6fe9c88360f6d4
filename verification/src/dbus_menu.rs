//! The menu that the tray icon of a minimized window serves.

use crate::action::{started, Goal, Request, Task};
use crate::hypr::WindowInfo;
use crate::menu::{
    flag_prop, item_views, text_prop, MenuItem, MenuItemView, MenuLayout, PropValue, PropView, Props,
};
use crate::number::{decimal, i32_to_string, lemma_decimal_chars};
use crate::text::{blank, concat2, same};
use crate::tray_menu::{
    entry_line, law_plain_text_is_kept, law_without, listing, menu_fields, plain, shown, stripped,
    SEPARATOR,
};
use vstd::prelude::*;
use vstd::string::*;

verus! {

/// The label of an item of the menu: 1 opens the window, 2 opens it on its original
/// workspace, and 3 closes it. No other item has one.
pub open spec fn item_label(window: WindowInfo, id: i32) -> Option<Seq<char>> {
    if id == 1 {
        Some("Open "@ + window.title@)
    } else if id == 2 {
        Some("Open on original workspace ("@ + decimal(window.workspace.id as int) + ")"@)
    } else if id == 3 {
        Some("Close "@ + window.title@)
    } else {
        None
    }
}

/// The properties of an item in the layout.
pub open spec fn layout_props(label: Seq<char>) -> Map<Seq<char>, PropView> {
    Map::<Seq<char>, PropView>::empty().insert("type"@, PropView::Text("standard"@)).insert(
        "label"@,
        PropView::Text(label),
    )
}

/// The properties of an item that is asked for by its id.
pub open spec fn group_props(label: Seq<char>) -> Map<Seq<char>, PropView> {
    Map::<Seq<char>, PropView>::empty().insert("label"@, PropView::Text(label)).insert(
        "enabled"@,
        PropView::Flag(true),
    ).insert("visible"@, PropView::Flag(true)).insert("type"@, PropView::Text("standard"@))
}

/// The item of the layout with this id.
pub open spec fn layout_item(window: WindowInfo, id: i32) -> MenuItemView {
    MenuItemView { id: id as int, props: layout_props(item_label(window, id)->0) }
}

/// The items of the layout, from top to bottom.
pub open spec fn layout_items(window: WindowInfo) -> Seq<MenuItemView> {
    seq![layout_item(window, 1), layout_item(window, 2), layout_item(window, 3)]
}

/// The items with these ids, without those that the menu does not have.
pub open spec fn group_items(window: WindowInfo, ids: Seq<i32>) -> Seq<MenuItemView>
    decreases ids.len(),
{
    if ids.len() == 0 {
        Seq::empty()
    } else {
        let before = group_items(window, ids.drop_last());
        match item_label(window, ids.last()) {
            Some(label) => before.push(
                MenuItemView { id: ids.last() as int, props: group_props(label) },
            ),
            None => before,
        }
    }
}

/// What a click on an item is to do.
pub open spec fn item_goal(window: WindowInfo, id: i32) -> Option<Goal> {
    if id == 1 {
        Some(Goal::RestoreHere)
    } else if id == 2 {
        Some(Goal::RestoreTo(window.workspace.id))
    } else if id == 3 {
        Some(Goal::Close)
    } else {
        None
    }
}

/// How the menu reacts to an event.
pub enum Reaction {
    /// The event is no click.
    Ignored,
    /// The click is on an item that the menu does not have.
    UnknownItem,
    /// The click is acted upon, beginning with this request.
    Started(Task, Request),
}

/// The reaction to an event with this name on the item with this id.
pub open spec fn reacts(window: WindowInfo, id: i32, event_id: Seq<char>, r: Reaction) -> bool {
    match r {
        Reaction::Ignored => event_id != "clicked"@,
        Reaction::UnknownItem => event_id == "clicked"@ && item_goal(window, id) is None,
        Reaction::Started(task, request) => {
            &&& event_id == "clicked"@
            &&& item_goal(window, id) matches Some(goal) && task.address@ == window.address@ && (
            task.stage,
            request@,
        ) == started(goal, window.address@)
        },
    }
}

/// The menu of a minimized window.
pub struct DbusMenu {
    pub window_info: WindowInfo,
}

impl DbusMenu {
    /// The label of the item with this id.
    fn label(&self, id: i32) -> (r: Option<String>)
        ensures
            match r {
                Some(label) => item_label(self.window_info, id) == Some(label@),
                None => item_label(self.window_info, id) is None,
            },
    {
        if id == 1 {
            Some(concat2("Open ", self.window_info.title.as_str()))
        } else if id == 2 {
            Some(
                concat2(
                    "Open on original workspace (",
                    i32_to_string(self.window_info.workspace.id).as_str(),
                ).concat(")"),
            )
        } else if id == 3 {
            Some(concat2("Close ", self.window_info.title.as_str()))
        } else {
            None
        }
    }

    fn layout_entry(&self, id: i32) -> (r: MenuItem)
        requires
            1 <= id <= 3,
        ensures
            r@ == layout_item(self.window_info, id),
    {
        let label = match self.label(id) {
            Some(l) => l,
            None => String::new(),
        };
        let props = Props::new().with("type", PropValue::Text("standard".to_owned())).with(
            "label",
            PropValue::Text(label),
        );
        MenuItem { id, props }
    }

    /// The revision of the menu and its layout, which is the whole of it whatever is asked
    /// for.
    pub fn get_layout(
        &self,
        _parent_id: i32,
        _recursion_depth: i32,
        _property_names: &Vec<String>,
    ) -> (r: (u32, MenuLayout))
        ensures
            r.0 == 2,
            r.1.id == 0,
            r.1.props@ == Map::<Seq<char>, PropView>::empty().insert(
                "children-display"@,
                PropView::Text("submenu"@),
            ),
            item_views(r.1.items@) == layout_items(self.window_info),
    {
        let mut items: Vec<MenuItem> = Vec::new();
        items.push(self.layout_entry(1));
        items.push(self.layout_entry(2));
        items.push(self.layout_entry(3));
        let props = Props::new().with("children-display", PropValue::Text("submenu".to_owned()));
        assert(item_views(items@) == layout_items(self.window_info));
        (2, MenuLayout { id: 0, props, items })
    }

    /// The properties of the items with these ids. Ids that the menu does not have are left
    /// out.
    pub fn get_group_properties(&self, ids: &Vec<i32>, _property_names: &Vec<String>) -> (r: Vec<
        MenuItem,
    >)
        ensures
            item_views(r@) == group_items(self.window_info, ids@),
    {
        let mut out: Vec<MenuItem> = Vec::new();
        let mut i: usize = 0;
        while i < ids.len()
            invariant
                i <= ids@.len(),
                item_views(out@) == group_items(self.window_info, ids@.take(i as int)),
            decreases ids@.len() - i,
        {
            let ghost o = out@;
            let id: i32 = ids[i];
            assert(ids@.take(i + 1).drop_last() == ids@.take(i as int));
            assert(ids@.take(i + 1).last() == id);
            if let Some(label) = self.label(id) {
                let props = Props::new().with("label", PropValue::Text(label)).with(
                    "enabled",
                    PropValue::Flag(true),
                ).with("visible", PropValue::Flag(true)).with(
                    "type",
                    PropValue::Text("standard".to_owned()),
                );
                let item = MenuItem { id, props };
                out.push(item);
                assert(item_views(out@) == item_views(o).push(item@));
            }
            i = i + 1;
        }
        assert(ids@.take(i as int) == ids@);
        out
    }

    /// Reacts to an event on a menu item.
    pub fn event(&self, id: i32, event_id: &str) -> (r: Reaction)
        ensures
            reacts(self.window_info, id, event_id@, r),
    {
        if !same(event_id, "clicked") {
            return Reaction::Ignored;
        }
        let goal = if id == 1 {
            Goal::RestoreHere
        } else if id == 2 {
            Goal::RestoreTo(self.window_info.workspace.id)
        } else if id == 3 {
            Goal::Close
        } else {
            return Reaction::UnknownItem;
        };
        let (task, request) = Task::start(&goal, self.window_info.address.as_str());
        Reaction::Started(task, request)
    }

    /// Reacts to several events, each given by the id of its item and its name, one after
    /// another.
    pub fn event_group(&self, events: &Vec<(i32, String)>) -> (r: Vec<Reaction>)
        ensures
            r@.len() == events@.len(),
            forall|i: int|
                0 <= i < r@.len() ==> reacts(
                    self.window_info,
                    events@[i].0,
                    events@[i].1@,
                    #[trigger] r@[i],
                ),
    {
        let mut out: Vec<Reaction> = Vec::new();
        let mut i: usize = 0;
        while i < events.len()
            invariant
                i <= events@.len(),
                out@.len() == i,
                forall|j: int|
                    0 <= j < i ==> reacts(
                        self.window_info,
                        events@[j].0,
                        events@[j].1@,
                        #[trigger] out@[j],
                    ),
            decreases events@.len() - i,
        {
            out.push(self.event(events[i].0, events[i].1.as_str()));
            i = i + 1;
        }
        out
    }

    /// The items whose layout is out of date, and the ids that are unknown: none.
    pub fn about_to_show_group(&self, _ids: &Vec<i32>) -> (r: (Vec<i32>, Vec<i32>))
        ensures
            r.0@.len() == 0,
            r.1@.len() == 0,
    {
        (Vec::new(), Vec::new())
    }

    /// Whether the layout is out of date: never.
    pub fn about_to_show(&self, _id: i32) -> (r: bool)
        ensures
            !r,
    {
        false
    }

    /// The version of the menu protocol.
    pub fn version(&self) -> (r: u32)
        ensures
            r == 3,
    {
        3
    }

    /// The direction of text in the menu.
    pub fn text_direction(&self) -> (r: &str)
        ensures
            r@ == "ltr"@,
    {
        "ltr"
    }

    /// The status of the menu.
    pub fn status(&self) -> (r: &str)
        ensures
            r@ == "normal"@,
    {
        "normal"
    }
}

/// Every item of the layout is acted upon when it is clicked, and no other id is.
pub proof fn law_items_are_acted_upon(window: WindowInfo, id: i32)
    ensures
        item_goal(window, id) is Some <==> item_label(window, id) is Some,
        item_goal(window, id) is Some <==> exists|k: int|
            0 <= k < 3 && (#[trigger] layout_items(window)[k]).id == id,
{
    let items = layout_items(window);
    assert(items[0].id == 1);
    assert(items[1].id == 2);
    assert(items[2].id == 3);
}

proof fn lemma_layout_props(label: Seq<char>)
    ensures
        text_prop(layout_props(label), "label"@) == Some(label),
        text_prop(layout_props(label), "type"@) == Some("standard"@),
        text_prop(layout_props(label), "children-display"@) is None,
        flag_prop(layout_props(label), "visible"@, true),
        flag_prop(layout_props(label), "enabled"@, true),
{
    reveal_strlit("type");
    reveal_strlit("label");
    reveal_strlit("visible");
    reveal_strlit("enabled");
    reveal_strlit("children-display");
    assert("type"@[0] == 't');
    assert("label"@[0] == 'l');
    assert("visible"@[0] == 'v');
    assert("enabled"@[0] == 'e');
    assert("children-display"@[0] == 'c');
}

/// An item that is asked for by its id has the label and the type that it has in the layout.
pub proof fn law_properties_agree(label: Seq<char>)
    ensures
        text_prop(group_props(label), "label"@) == text_prop(layout_props(label), "label"@),
        text_prop(group_props(label), "type"@) == text_prop(layout_props(label), "type"@),
        flag_prop(group_props(label), "visible"@, true) == flag_prop(
            layout_props(label),
            "visible"@,
            true,
        ),
        flag_prop(group_props(label), "enabled"@, true) == flag_prop(
            layout_props(label),
            "enabled"@,
            true,
        ),
{
    lemma_layout_props(label);
    reveal_strlit("type");
    reveal_strlit("label");
    reveal_strlit("visible");
    reveal_strlit("enabled");
    assert("type"@[0] == 't');
    assert("label"@[0] == 'l');
    assert("visible"@[0] == 'v');
    assert("enabled"@[0] == 'e');
}

proof fn lemma_standard_item(item: MenuItemView, label: Seq<char>)
    requires
        item.props == layout_props(label),
        !blank(shown(label)),
    ensures
        entry_line(item) == Some(menu_fields(shown(label), item.id, "item"@)),
{
    lemma_layout_props(label);
    reveal_strlit("standard");
    reveal_strlit("separator");
    assert("standard"@.len() != "separator"@.len());
}

/// Items as the children of a menu, all of which are menu entries.
pub open spec fn all_present(items: Seq<MenuItemView>) -> Seq<Option<MenuItemView>> {
    Seq::new(items.len(), |i: int| Some(items[i]))
}

/// The menu of a minimized window is read like that of any other tray item: it is listed as
/// its three items, in order and with their labels, whatever the title of the window is.
pub proof fn law_own_menu_is_listed(window: WindowInfo)
    ensures
        listing(all_present(layout_items(window))) == seq![
            menu_fields("Open "@ + shown(window.title@), 1, "item"@),
            menu_fields(
                "Open on original workspace ("@ + decimal(window.workspace.id as int) + ")"@,
                2,
                "item"@,
            ),
            menu_fields("Close "@ + shown(window.title@), 3, "item"@),
        ],
{
    reveal_strlit("Open ");
    reveal_strlit("Close ");
    reveal_strlit("Open on original workspace (");
    reveal_strlit(")");
    let title = window.title@;
    let number = decimal(window.workspace.id as int);
    lemma_decimal_chars(window.workspace.id as int);
    let open = "Open "@ + title;
    let original = "Open on original workspace ("@ + number + ")"@;
    let close = "Close "@ + title;
    law_plain_text_is_kept("Open "@, title);
    law_plain_text_is_kept("Close "@, title);
    assert forall|i: int| 0 <= i < original.len() implies plain(#[trigger] original[i])
        && original[i] != SEPARATOR by {
        let lead = "Open on original workspace ("@;
        if i < lead.len() {
            assert(original[i] == lead[i]);
        } else if i < lead.len() + number.len() {
            assert(original[i] == number[i - lead.len()]);
        } else {
            assert(original[i] == ")"@[0]);
        }
    }
    law_plain_text_is_kept(original, Seq::empty());
    assert(original + Seq::<char>::empty() == original);
    assert(stripped(Seq::<char>::empty()) == Seq::<char>::empty());
    assert(stripped(original) == original);
    law_without("Open "@, stripped(title), SEPARATOR);
    law_without("Close "@, stripped(title), SEPARATOR);
    law_without(original, Seq::empty(), SEPARATOR);
    assert(shown(open) == "Open "@ + shown(title));
    assert(shown(close) == "Close "@ + shown(title));
    assert(shown(original) == original);
    assert(shown(open)[0] == 'O');
    assert(shown(original)[0] == 'O');
    assert(shown(close)[0] == 'C');
    lemma_standard_item(layout_item(window, 1), open);
    lemma_standard_item(layout_item(window, 2), original);
    lemma_standard_item(layout_item(window, 3), close);
    let all = all_present(layout_items(window));
    let two = all.drop_last();
    let one = two.drop_last();
    assert(one.drop_last() == Seq::<Option<MenuItemView>>::empty());
    assert(listing(one.drop_last()) == Seq::<Seq<char>>::empty());
    assert(one.last() == Some(layout_item(window, 1)));
    assert(two.last() == Some(layout_item(window, 2)));
    assert(all.last() == Some(layout_item(window, 3)));
    let first = menu_fields(shown(open), 1, "item"@);
    let second = menu_fields(shown(original), 2, "item"@);
    let third = menu_fields(shown(close), 3, "item"@);
    assert(listing(one) == seq![first]);
    assert(listing(two) == seq![first, second]);
    assert(listing(all) == seq![first, second, third]);
}

/// The layout has three items from top to bottom, with the ids 1, 2 and 3. Each is a standard
/// item with a label and no other property: the title of the window to open, the workspace it
/// was on, and the title of the window to close.
pub proof fn law_layout(window: WindowInfo, key: Seq<char>)
    ensures
        ({
            let items = layout_items(window);
            let number = decimal(window.workspace.id as int);
            &&& items.len() == 3
            &&& items[0].id == 1 && items[1].id == 2 && items[2].id == 3
            &&& items[0].props["label"@] == PropView::Text("Open "@ + window.title@)
            &&& items[1].props["label"@] == PropView::Text(
                "Open on original workspace ("@ + number + ")"@,
            )
            &&& items[2].props["label"@] == PropView::Text("Close "@ + window.title@)
            &&& forall|i: int|
                0 <= i < 3 ==> (#[trigger] items[i]).props["type"@] == PropView::Text("standard"@)
                    && (items[i].props.contains_key(key) <==> key == "type"@ || key == "label"@)
        }),
{
    let label = "Open "@ + window.title@;
    lemma_layout_props(label);
    reveal_strlit("type");
    reveal_strlit("label");
    assert("type"@[0] == 't');
    assert("label"@[0] == 'l');
    assert("type"@ != "label"@);
}

/// The properties of some ids and some more are those of the former, then those of the latter.
pub proof fn law_group_of_more_ids(window: WindowInfo, a: Seq<i32>, b: Seq<i32>)
    ensures
        group_items(window, Seq::empty()) == Seq::<MenuItemView>::empty(),
        group_items(window, a + b) == group_items(window, a) + group_items(window, b),
    decreases b.len(),
{
    if b.len() == 0 {
        assert(a + b == a);
        assert(group_items(window, a) + group_items(window, b) == group_items(window, a));
    } else {
        law_group_of_more_ids(window, a, b.drop_last());
        assert((a + b).drop_last() == a + b.drop_last());
        assert((a + b).last() == b.last());
        assert(group_items(window, a + b) == group_items(window, a) + group_items(window, b));
    }
}

/// Asked for by its id, an item of the layout has the label and the type that it has there, is
/// enabled and visible, and has no other property. An id that is not in the layout gives
/// nothing.
pub proof fn law_group_of_one_id(window: WindowInfo, id: i32, key: Seq<char>)
    ensures
        !(1 <= id <= 3) ==> group_items(window, seq![id]).len() == 0,
        1 <= id <= 3 ==> ({
            let items = group_items(window, seq![id]);
            let placed = layout_items(window)[id - 1];
            &&& items.len() == 1
            &&& items[0].id == id
            &&& items[0].props["label"@] == placed.props["label"@]
            &&& items[0].props["type"@] == placed.props["type"@]
            &&& items[0].props["enabled"@] == PropView::Flag(true)
            &&& items[0].props["visible"@] == PropView::Flag(true)
            &&& items[0].props.contains_key(key) <==> key == "label"@ || key == "enabled"@ || key
                == "visible"@ || key == "type"@
        }),
{
    assert(seq![id].drop_last() == Seq::<i32>::empty());
    assert(group_items(window, Seq::empty()) == Seq::<MenuItemView>::empty());
    reveal_strlit("type");
    reveal_strlit("label");
    reveal_strlit("visible");
    reveal_strlit("enabled");
    assert("type"@[0] == 't');
    assert("label"@[0] == 'l');
    assert("visible"@[0] == 'v');
    assert("enabled"@[0] == 'e');
    assert("type"@ != "label"@ && "type"@ != "visible"@ && "type"@ != "enabled"@);
    assert("label"@ != "visible"@ && "label"@ != "enabled"@ && "visible"@ != "enabled"@);
}

/// An event is ignored if and only if it is no click; a click on an item that the layout does
/// not have starts nothing, and any other click starts what the label of the item says: to
/// restore the window where the user is, to restore it where it was, or to close it.
pub proof fn law_reactions(
    window: WindowInfo,
    id: i32,
    event_id: Seq<char>,
    task: Task,
    request: Request,
)
    ensures
        reacts(window, id, event_id, Reaction::Ignored) <==> event_id != "clicked"@,
        reacts(window, id, event_id, Reaction::UnknownItem) <==> event_id == "clicked"@ && !(1 <= id
            <= 3),
        reacts(window, id, event_id, Reaction::Started(task, request)) ==> event_id == "clicked"@
            && 1 <= id <= 3 && task.address@ == window.address@,
        reacts(window, 1, event_id, Reaction::Started(task, request)) ==> (task.stage, request@)
            == started(Goal::RestoreHere, window.address@),
        reacts(window, 2, event_id, Reaction::Started(task, request)) ==> (task.stage, request@)
            == started(Goal::RestoreTo(window.workspace.id), window.address@),
        reacts(window, 3, event_id, Reaction::Started(task, request)) ==> (task.stage, request@)
            == started(Goal::Close, window.address@),
{
}

} // verus!
