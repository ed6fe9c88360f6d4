//! Menu items and their properties.

use crate::text::same;
use vstd::prelude::*;
use vstd::string::*;

verus! {

/// The value of a property, as far as a menu is read for it.
pub enum PropValue {
    /// A string.
    Text(String),
    /// A boolean.
    Flag(bool),
    /// A value of any other type.
    Other,
}

/// What a property holds.
#[verifier::ext_equal]
pub enum PropView {
    Text(Seq<char>),
    Flag(bool),
    Other,
}

impl View for PropValue {
    type V = PropView;

    open spec fn view(&self) -> PropView {
        match self {
            PropValue::Text(s) => PropView::Text(s@),
            PropValue::Flag(b) => PropView::Flag(*b),
            PropValue::Other => PropView::Other,
        }
    }
}

/// The index of the first pair with this key, or the number of pairs where none has it.
pub open spec fn key_index(pairs: Seq<(String, PropValue)>, key: Seq<char>) -> int
    decreases pairs.len(),
{
    if pairs.len() == 0 || pairs[0].0@ == key {
        0
    } else {
        1 + key_index(pairs.drop_first(), key)
    }
}

/// No two pairs have the same key.
pub open spec fn distinct_keys(pairs: Seq<(String, PropValue)>) -> bool {
    forall|i: int, j: int|
        0 <= i < j < pairs.len() ==> (#[trigger] pairs[i]).0@ != (#[trigger] pairs[j]).0@
}

/// The map that pairs stand for.
pub open spec fn pairs_map(pairs: Seq<(String, PropValue)>) -> Map<Seq<char>, PropView> {
    Map::new(
        |key: Seq<char>| key_index(pairs, key) < pairs.len(),
        |key: Seq<char>| pairs[key_index(pairs, key)].1@,
    )
}

proof fn lemma_key_index(pairs: Seq<(String, PropValue)>, key: Seq<char>)
    ensures
        0 <= key_index(pairs, key) <= pairs.len(),
        key_index(pairs, key) < pairs.len() ==> pairs[key_index(pairs, key)].0@ == key,
        forall|j: int| 0 <= j < key_index(pairs, key) ==> (#[trigger] pairs[j]).0@ != key,
    decreases pairs.len(),
{
    if pairs.len() > 0 && pairs[0].0@ != key {
        lemma_key_index(pairs.drop_first(), key);
        assert forall|j: int| 0 <= j < key_index(pairs, key) implies (#[trigger] pairs[j]).0@
            != key by {
            if j > 0 {
                assert(pairs.drop_first()[j - 1] == pairs[j]);
            }
        }
    }
}

fn index_of(pairs: &Vec<(String, PropValue)>, key: &str) -> (r: usize)
    ensures
        r == key_index(pairs@, key@),
        r <= pairs@.len(),
{
    let mut i: usize = 0;
    while i < pairs.len()
        invariant
            i <= pairs@.len(),
            forall|j: int| 0 <= j < i ==> (#[trigger] pairs@[j]).0@ != key@,
        decreases pairs@.len() - i,
    {
        if same(pairs[i].0.as_str(), key) {
            proof {
                lemma_key_index(pairs@, key@);
                assert(pairs@[i as int].0@ == key@);
            }
            return i;
        }
        i = i + 1;
    }
    proof {
        lemma_key_index(pairs@, key@);
    }
    i
}

/// The properties of a menu item. No property occurs twice.
pub struct Props {
    pairs: Vec<(String, PropValue)>,
}

impl View for Props {
    type V = Map<Seq<char>, PropView>;

    closed spec fn view(&self) -> Map<Seq<char>, PropView> {
        pairs_map(self.pairs@)
    }
}

impl Props {
    #[verifier::type_invariant]
    spec fn well_formed(self) -> bool {
        distinct_keys(self.pairs@)
    }

    /// No properties.
    pub fn new() -> (r: Props)
        ensures
            r@ == Map::<Seq<char>, PropView>::empty(),
    {
        let r = Props { pairs: Vec::new() };
        assert(r@ =~= Map::<Seq<char>, PropView>::empty());
        r
    }

    /// The properties with `key` set to `value`, in place of what it was.
    pub fn with(self, key: &str, value: PropValue) -> (r: Props)
        ensures
            r@ == self@.insert(key@, value@),
    {
        proof {
            use_type_invariant(&self);
        }
        let ghost before = self.pairs@;
        let mut pairs = self.pairs;
        let i: usize = index_of(&pairs, key);
        proof {
            lemma_key_index(before, key@);
        }
        let ghost v = value@;
        if i < pairs.len() {
            pairs.set(i, (key.to_owned(), value));
        } else {
            pairs.push((key.to_owned(), value));
        }
        proof {
            let after = pairs@;
            assert forall|k: Seq<char>| #[trigger] key_index(after, k) == if k == key@ {
                i as int
            } else if key_index(before, k) == before.len() {
                after.len() as int
            } else {
                key_index(before, k)
            } by {
                lemma_key_index(before, k);
                lemma_key_index(after, k);
                let x = key_index(after, k);
                let y = key_index(before, k);
                assert(after[i as int].0@ == key@);
                assert forall|j: int| 0 <= j < before.len() implies (#[trigger] after[j]).0@
                    == before[j].0@ by {}
                if k != key@ {
                    if x < after.len() {
                        assert(x != i);
                        assert(before[x].0@ == k);
                    }
                    if y < before.len() {
                        assert(after[y].0@ == k);
                    }
                } else {
                    assert forall|j: int| 0 <= j < i implies (#[trigger] after[j]).0@ != k by {
                        assert(before[j].0@ != k);
                    }
                }
            }
            let m = pairs_map(before).insert(key@, v);
            assert forall|k: Seq<char>| #[trigger] pairs_map(after).contains_key(k)
                == m.contains_key(k) by {
                lemma_key_index(before, k);
                lemma_key_index(after, k);
            }
            assert forall|k: Seq<char>| #[trigger] pairs_map(after).contains_key(k) implies
                pairs_map(after)[k] == m[k] by {
                lemma_key_index(before, k);
                let y = key_index(before, k);
                if k == key@ {
                    assert(after[i as int].1@ == v);
                } else {
                    assert(key_index(after, k) == y);
                    assert(y != i);
                    assert(after[y] == before[y]);
                }
            }
            assert(pairs_map(after) =~= pairs_map(before).insert(key@, v));
            assert(distinct_keys(after)) by {
                assert forall|a: int, b: int| 0 <= a < b < after.len() implies (
                #[trigger] after[a]).0@ != (#[trigger] after[b]).0@ by {
                    assert(a < before.len() ==> before[a].0@ == after[a].0@);
                    assert(b < before.len() ==> before[b].0@ == after[b].0@);
                }
            }
        }
        Props { pairs }
    }

    /// The value of a property.
    pub fn get(&self, key: &str) -> (r: Option<&PropValue>)
        ensures
            match r {
                Some(value) => self@.contains_key(key@) && self@[key@] == value@,
                None => !self@.contains_key(key@),
            },
    {
        let i: usize = index_of(&self.pairs, key);
        if i < self.pairs.len() {
            Some(&self.pairs[i].1)
        } else {
            None
        }
    }

    /// Every property with its value, each once.
    pub fn into_pairs(self) -> (r: Vec<(String, PropValue)>)
        ensures
            distinct_keys(r@),
            pairs_map(r@) == self@,
    {
        proof {
            use_type_invariant(&self);
        }
        self.pairs
    }
}

/// The text of a property that holds one.
pub open spec fn text_prop(props: Map<Seq<char>, PropView>, key: Seq<char>) -> Option<Seq<char>> {
    if props.contains_key(key) {
        match props[key] {
            PropView::Text(s) => Some(s),
            _ => None,
        }
    } else {
        None
    }
}

/// The boolean of a property that holds one, else the default.
pub open spec fn flag_prop(
    props: Map<Seq<char>, PropView>,
    key: Seq<char>,
    default: bool,
) -> bool {
    if props.contains_key(key) {
        match props[key] {
            PropView::Flag(b) => b,
            _ => default,
        }
    } else {
        default
    }
}

/// The text of a property; `None` where there is no such property or it holds no text.
pub fn prop_string(props: &Props, key: &str) -> (r: Option<String>)
    ensures
        match r {
            Some(s) => text_prop(props@, key@) == Some(s@),
            None => text_prop(props@, key@) is None,
        },
{
    match props.get(key) {
        Some(PropValue::Text(s)) => Some(s.clone()),
        _ => None,
    }
}

/// The boolean of a property; the default where there is no such property or it holds none.
pub fn prop_bool(props: &Props, key: &str, default: bool) -> (r: bool)
    ensures
        r == flag_prop(props@, key@, default),
{
    match props.get(key) {
        Some(PropValue::Flag(b)) => *b,
        _ => default,
    }
}

/// An entry of a menu.
pub struct MenuItem {
    pub id: i32,
    pub props: Props,
}

/// The id of a menu entry and what its properties hold.
#[verifier::ext_equal]
pub struct MenuItemView {
    pub id: int,
    pub props: Map<Seq<char>, PropView>,
}

impl View for MenuItem {
    type V = MenuItemView;

    open spec fn view(&self) -> MenuItemView {
        MenuItemView { id: self.id as int, props: self.props@ }
    }
}

/// What several menu entries hold.
pub open spec fn item_views(s: Seq<MenuItem>) -> Seq<MenuItemView> {
    Seq::new(s.len(), |i: int| s[i]@)
}

/// A menu: its root, with the properties of the root and the entries below it.
pub struct MenuLayout {
    pub id: i32,
    pub props: Props,
    pub items: Vec<MenuItem>,
}

/// Every pair is a property with its value, and there are no others.
pub proof fn law_pairs_map(pairs: Seq<(String, PropValue)>, i: int, key: Seq<char>)
    requires
        distinct_keys(pairs),
    ensures
        0 <= i < pairs.len() ==> pairs_map(pairs).contains_key(pairs[i].0@) && pairs_map(
            pairs,
        )[pairs[i].0@] == pairs[i].1@,
        pairs_map(pairs).contains_key(key) <==> exists|j: int|
            0 <= j < pairs.len() && (#[trigger] pairs[j]).0@ == key,
{
    lemma_key_index(pairs, key);
    if 0 <= i < pairs.len() {
        lemma_key_index(pairs, pairs[i].0@);
        let k = key_index(pairs, pairs[i].0@);
        assert(pairs[k].0@ == pairs[i].0@);
    }
}

/// A property that is set to a text holds it, one that is set to anything else holds none, and
/// other properties are as they were.
pub proof fn law_text_prop(
    props: Map<Seq<char>, PropView>,
    key: Seq<char>,
    other: Seq<char>,
    text: Seq<char>,
    flag: bool,
)
    requires
        key != other,
    ensures
        text_prop(Map::empty(), key) is None,
        text_prop(props.insert(key, PropView::Text(text)), key) == Some(text),
        text_prop(props.insert(key, PropView::Flag(flag)), key) is None,
        text_prop(props.insert(key, PropView::Other), key) is None,
        text_prop(props.insert(other, PropView::Text(text)), key) == text_prop(props, key),
        text_prop(props.insert(other, PropView::Flag(flag)), key) == text_prop(props, key),
        text_prop(props.insert(other, PropView::Other), key) == text_prop(props, key),
        text_prop(props.remove(key), key) is None,
{
}

/// A property that is set to a boolean holds it, one that is set to anything else or not at all
/// holds the default, and other properties are as they were.
pub proof fn law_flag_prop(
    props: Map<Seq<char>, PropView>,
    key: Seq<char>,
    other: Seq<char>,
    text: Seq<char>,
    flag: bool,
    default: bool,
)
    requires
        key != other,
    ensures
        flag_prop(Map::empty(), key, default) == default,
        flag_prop(props.insert(key, PropView::Flag(flag)), key, default) == flag,
        flag_prop(props.insert(key, PropView::Text(text)), key, default) == default,
        flag_prop(props.insert(key, PropView::Other), key, default) == default,
        flag_prop(props.insert(other, PropView::Flag(flag)), key, default) == flag_prop(
            props,
            key,
            default,
        ),
        flag_prop(props.insert(other, PropView::Text(text)), key, default) == flag_prop(
            props,
            key,
            default,
        ),
        flag_prop(props.insert(other, PropView::Other), key, default) == flag_prop(
            props,
            key,
            default,
        ),
        flag_prop(props.remove(key), key, default) == default,
{
}

/// Menu entries are read in their order, each for its own id and properties, and values for
/// what they hold.
pub proof fn law_item_views(s: Seq<MenuItem>, i: int, text: String, flag: bool)
    ensures
        item_views(s).len() == s.len(),
        0 <= i < s.len() ==> item_views(s)[i].id == s[i].id && item_views(s)[i].props
            == s[i].props@,
        PropValue::Text(text)@ == PropView::Text(text@),
        PropValue::Flag(flag)@ == PropView::Flag(flag),
        PropValue::Other@ == PropView::Other,
{
}

} // verus!
