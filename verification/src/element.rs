//! The platform-agnostic UI element tree: counting its nodes, finding them by
//! id, and editing their text, state, style and children.
//!
//! The tree is generic in the style payload `S` and in the scalar `N` used for
//! scroll offsets and slider values; the operations here never look at either.
use vstd::prelude::*;

use crate::text::{chars_eq, chars_of};

verus! {

/// A node of the UI tree.
#[allow(inconsistent_fields)]
#[verifier::reject_recursive_types(S)]
#[verifier::reject_recursive_types(N)]
pub enum Element<S, N> {
    Container { id: Option<String>, style: S, children: Vec<Element<S, N>> },
    Label { id: Option<String>, text: String, style: S },
    Image { id: Option<String>, src: String, style: S },
    TextInput { id: Option<String>, value: String, focused: bool, style: S },
    ScrollView {
        id: Option<String>,
        style: S,
        children: Vec<Element<S, N>>,
        scroll_x: N,
        scroll_y: N,
        scroll_sensitivity: Option<N>,
        dynamic_sensitivity: Option<bool>,
        momentum_scrolling: Option<bool>,
        capture_drag: Option<bool>,
    },
    Checkbox { id: Option<String>, checked: bool, style: S },
    Slider { id: Option<String>, value: N, min: N, max: N, style: S },
    ProgressBar { id: Option<String>, value: N, max: N, style: S },
}

/// The id of a node, as characters.
pub open spec fn id_view<S, N>(e: Element<S, N>) -> Option<Seq<char>> {
    match e {
        Element::Container { id, .. } => opt_chars(id),
        Element::Label { id, .. } => opt_chars(id),
        Element::Image { id, .. } => opt_chars(id),
        Element::TextInput { id, .. } => opt_chars(id),
        Element::ScrollView { id, .. } => opt_chars(id),
        Element::Checkbox { id, .. } => opt_chars(id),
        Element::Slider { id, .. } => opt_chars(id),
        Element::ProgressBar { id, .. } => opt_chars(id),
    }
}

/// The characters of an optional string.
pub open spec fn opt_chars(s: Option<String>) -> Option<Seq<char>> {
    match s {
        Some(s) => Some(s@),
        None => None,
    }
}

/// The children of a container or scroll view; empty for the other nodes.
pub open spec fn children_of<S, N>(e: Element<S, N>) -> Seq<Element<S, N>> {
    match e {
        Element::Container { children, .. } => children@,
        Element::ScrollView { children, .. } => children@,
        _ => Seq::empty(),
    }
}

/// Whether a node can hold children.
pub open spec fn is_parent<S, N>(e: Element<S, N>) -> bool {
    e is Container || e is ScrollView
}

/// The number of nodes in a tree.
pub open spec fn tree_size<S, N>(e: Element<S, N>) -> nat
    decreases e,
{
    match e {
        Element::Container { children, .. } => 1 + forest_size(children@),
        Element::ScrollView { children, .. } => 1 + forest_size(children@),
        _ => 1,
    }
}

/// The number of nodes in a sequence of trees.
pub open spec fn forest_size<S, N>(s: Seq<Element<S, N>>) -> nat
    decreases s,
{
    if s.len() == 0 {
        0
    } else {
        forest_size(s.drop_last()) + tree_size(s.last())
    }
}

/// Counts the nodes of the tree.
pub fn count_elements<S, N>(element: &Element<S, N>) -> (n: usize)
    requires
        tree_size(*element) <= usize::MAX,
    ensures
        n == tree_size(*element),
    decreases element,
{
    match element {
        Element::Container { children, .. } | Element::ScrollView { children, .. } => {
            let mut total: usize = 1;
            let mut i: usize = 0;
            while i < children.len()
                invariant
                    i <= children.len(),
                    children_of(*element) == children@,
                    is_parent(*element),
                    tree_size(*element) == 1 + forest_size(children@),
                    tree_size(*element) <= usize::MAX,
                    total == 1 + forest_size(children@.subrange(0, i as int)),
                decreases children.len() - i,
            {
                proof {
                    assert(children@.subrange(0, i as int + 1).drop_last() =~= children@.subrange(
                        0,
                        i as int,
                    ));
                    lemma_forest_size_prefix(children@, i as int + 1);
                    lemma_child_decreases(*element, i as int);
                }
                let c = count_elements(&children[i]);
                total = total + c;
                i += 1;
            }
            proof {
                assert(children@.subrange(0, i as int) =~= children@);
            }
            total
        },
        _ => 1,
    }
}

/// A child is structurally smaller than its parent.
pub proof fn lemma_child_decreases<S, N>(e: Element<S, N>, i: int)
    requires
        is_parent(e),
        0 <= i < children_of(e).len(),
    ensures
        decreases_to!(e => children_of(e)[i]),
{
    match e {
        Element::Container { children, .. } => {
            assert(decreases_to!(e => children));
            assert(decreases_to!(children => children@));
            assert(decreases_to!(children@ => children@[i]));
        },
        Element::ScrollView { children, .. } => {
            assert(decreases_to!(e => children));
            assert(decreases_to!(children => children@));
            assert(decreases_to!(children@ => children@[i]));
        },
        _ => {},
    }
}

/// A prefix of a forest has no more nodes than the forest.
pub proof fn lemma_forest_size_prefix<S, N>(s: Seq<Element<S, N>>, k: int)
    requires
        0 <= k <= s.len(),
    ensures
        forest_size(s.subrange(0, k)) <= forest_size(s),
    decreases s.len(),
{
    if k < s.len() {
        assert(s.drop_last().subrange(0, k) =~= s.subrange(0, k));
        lemma_forest_size_prefix(s.drop_last(), k);
    } else {
        assert(s.subrange(0, k) =~= s);
    }
}

/// Whether some node of the tree, searched in pre-order, satisfies `hit`.
pub open spec fn found<S, N>(e: Element<S, N>, hit: spec_fn(Element<S, N>) -> bool) -> bool
    decreases e,
{
    if hit(e) {
        true
    } else {
        match e {
            Element::Container { children, .. } => found_in(children@, hit),
            Element::ScrollView { children, .. } => found_in(children@, hit),
            _ => false,
        }
    }
}

/// Whether some tree of the sequence holds a node that satisfies `hit`.
pub open spec fn found_in<S, N>(s: Seq<Element<S, N>>, hit: spec_fn(Element<S, N>) -> bool) -> bool
    decreases s,
{
    if s.len() == 0 {
        false
    } else {
        found_in(s.drop_last(), hit) || found(s.last(), hit)
    }
}

/// `a` and `b` are parents of the same kind that agree on every field but their children.
pub open spec fn same_but_children<S, N>(a: Element<S, N>, b: Element<S, N>) -> bool {
    match a {
        Element::Container { id, style, .. } => match b {
            Element::Container { id: bid, style: bstyle, .. } => id == bid && style == bstyle,
            _ => false,
        },
        Element::ScrollView {
            id,
            style,
            scroll_x,
            scroll_y,
            scroll_sensitivity,
            dynamic_sensitivity,
            momentum_scrolling,
            capture_drag,
            ..
        } => match b {
            Element::ScrollView {
                id: bid,
                style: bstyle,
                scroll_x: bx,
                scroll_y: by,
                scroll_sensitivity: bs,
                dynamic_sensitivity: bd,
                momentum_scrolling: bm,
                capture_drag: bc,
                ..
            } => id == bid && style == bstyle && scroll_x == bx && scroll_y == by
                && scroll_sensitivity == bs && dynamic_sensitivity == bd && momentum_scrolling == bm
                && capture_drag == bc,
            _ => false,
        },
        _ => false,
    }
}

/// `new` is `old` with its first node (in pre-order) that satisfies `hit` changed as
/// `change` says, and every other node left as it was.
pub open spec fn edited<S, N>(
    old: Element<S, N>,
    new: Element<S, N>,
    hit: spec_fn(Element<S, N>) -> bool,
    change: spec_fn(Element<S, N>, Element<S, N>) -> bool,
) -> bool
    decreases old,
{
    if hit(old) {
        change(old, new)
    } else {
        match old {
            Element::Container { children, .. } => same_but_children(old, new) && edited_in(
                children@,
                children_of(new),
                hit,
                change,
            ),
            Element::ScrollView { children, .. } => same_but_children(old, new) && edited_in(
                children@,
                children_of(new),
                hit,
                change,
            ),
            _ => new == old,
        }
    }
}

/// `new` is `old` with its first tree that holds a hit edited as `edited` says.
pub open spec fn edited_in<S, N>(
    old: Seq<Element<S, N>>,
    new: Seq<Element<S, N>>,
    hit: spec_fn(Element<S, N>) -> bool,
    change: spec_fn(Element<S, N>, Element<S, N>) -> bool,
) -> bool
    decreases old,
{
    if old.len() == 0 {
        new.len() == 0
    } else if found_in(old.drop_last(), hit) {
        new.len() == old.len() && new.last() == old.last() && edited_in(
            old.drop_last(),
            new.drop_last(),
            hit,
            change,
        )
    } else {
        new.len() == old.len() && new.drop_last() == old.drop_last() && edited(
            old.last(),
            new.last(),
            hit,
            change,
        )
    }
}

/// The nodes whose text `mutate_text` sets: labels and text inputs with id `id`.
pub open spec fn text_hit<S, N>(id: Seq<char>) -> spec_fn(Element<S, N>) -> bool {
    |e: Element<S, N>| id_view(e) == Some(id) && (e is Label || e is TextInput)
}

/// The text of a label or text input becomes `t`; nothing else changes.
pub open spec fn text_change<S, N>(t: Seq<char>) -> spec_fn(Element<S, N>, Element<S, N>) -> bool {
    |old: Element<S, N>, new: Element<S, N>|
        match old {
            Element::Label { id, style, .. } => new is Label && new->Label_id == id
                && new->Label_style == style && new->Label_text@ == t,
            Element::TextInput { id, style, focused, .. } => new is TextInput && new->TextInput_id
                == id && new->TextInput_style == style && new->TextInput_focused == focused
                && new->TextInput_value@ == t,
            _ => false,
        }
}

/// Whether `mutate_state` knows `property` for this kind of node.
pub open spec fn has_state<S, N>(e: Element<S, N>, property: Seq<char>) -> bool {
    match e {
        Element::ScrollView { .. } => property == "scroll_x"@ || property == "scroll_y"@,
        Element::Checkbox { .. } => property == "checked"@,
        Element::Slider { .. } => property == "value"@,
        Element::ProgressBar { .. } => property == "value"@,
        _ => false,
    }
}

/// The nodes whose state `mutate_state` sets: those with id `id` that know `property`.
pub open spec fn state_hit<S, N>(id: Seq<char>, property: Seq<char>) -> spec_fn(Element<S, N>) -> bool {
    |e: Element<S, N>| id_view(e) == Some(id) && has_state(e, property)
}

/// The state named by `property` becomes `value` (a checkbox becomes checked when
/// `positive`); nothing else changes.
pub open spec fn state_change<S, N>(property: Seq<char>, value: N, positive: bool) -> spec_fn(
    Element<S, N>,
    Element<S, N>,
) -> bool {
    |old: Element<S, N>, new: Element<S, N>|
        match old {
            Element::ScrollView {
                id,
                style,
                children,
                scroll_x,
                scroll_y,
                scroll_sensitivity,
                dynamic_sensitivity,
                momentum_scrolling,
                capture_drag,
            } => new == Element::<S, N>::ScrollView {
                id,
                style,
                children,
                scroll_x: if property == "scroll_x"@ { value } else { scroll_x },
                scroll_y: if property == "scroll_x"@ { scroll_y } else { value },
                scroll_sensitivity,
                dynamic_sensitivity,
                momentum_scrolling,
                capture_drag,
            },
            Element::Checkbox { id, style, .. } => new == Element::<S, N>::Checkbox {
                id,
                checked: positive,
                style,
            },
            Element::Slider { id, min, max, style, .. } => new == Element::<S, N>::Slider {
                id,
                value,
                min,
                max,
                style,
            },
            Element::ProgressBar { id, max, style, .. } => new == Element::<S, N>::ProgressBar {
                id,
                value,
                max,
                style,
            },
            _ => false,
        }
}

/// The nodes `insert_child` appends to: containers and scroll views with id `id`.
pub open spec fn insert_hit<S, N>(id: Seq<char>) -> spec_fn(Element<S, N>) -> bool {
    |e: Element<S, N>| is_parent(e) && id_view(e) == Some(id)
}

/// `child` is appended to the children; nothing else changes.
pub open spec fn insert_change<S, N>(child: Element<S, N>) -> spec_fn(Element<S, N>, Element<S, N>) -> bool {
    |old: Element<S, N>, new: Element<S, N>|
        same_but_children(old, new) && children_of(new) == children_of(old).push(child)
}

/// `k` is the position of the first tree of `s` whose root has id `id`.
pub open spec fn first_with_id<S, N>(s: Seq<Element<S, N>>, id: Seq<char>, k: int) -> bool {
    &&& 0 <= k < s.len()
    &&& id_view(s[k]) == Some(id)
    &&& forall|j: int| 0 <= j < k ==> id_view(#[trigger] s[j]) != Some(id)
}

/// The nodes `remove_node` removes from: parents with a direct child whose id is `id`.
pub open spec fn remove_hit<S, N>(id: Seq<char>) -> spec_fn(Element<S, N>) -> bool {
    |e: Element<S, N>|
        is_parent(e) && exists|k: int|
            0 <= k < children_of(e).len() && id_view(#[trigger] children_of(e)[k]) == Some(id)
}

/// The first direct child with id `id` is removed; nothing else changes.
pub open spec fn remove_change<S, N>(id: Seq<char>) -> spec_fn(Element<S, N>, Element<S, N>) -> bool {
    |old: Element<S, N>, new: Element<S, N>|
        same_but_children(old, new) && exists|k: int|
            first_with_id(children_of(old), id, k) && children_of(new) == children_of(old).remove(
                k,
            )
}

/// The style of a node.
pub open spec fn style_view<S, N>(e: Element<S, N>) -> S {
    match e {
        Element::Container { style, .. } => style,
        Element::Label { style, .. } => style,
        Element::Image { style, .. } => style,
        Element::TextInput { style, .. } => style,
        Element::ScrollView { style, .. } => style,
        Element::Checkbox { style, .. } => style,
        Element::Slider { style, .. } => style,
        Element::ProgressBar { style, .. } => style,
    }
}

/// `e` with its style replaced by `s`.
pub open spec fn with_style<S, N>(e: Element<S, N>, s: S) -> Element<S, N> {
    match e {
        Element::Container { id, children, .. } => Element::Container { id, style: s, children },
        Element::Label { id, text, .. } => Element::Label { id, text, style: s },
        Element::Image { id, src, .. } => Element::Image { id, src, style: s },
        Element::TextInput { id, value, focused, .. } => Element::TextInput {
            id,
            value,
            focused,
            style: s,
        },
        Element::ScrollView {
            id,
            children,
            scroll_x,
            scroll_y,
            scroll_sensitivity,
            dynamic_sensitivity,
            momentum_scrolling,
            capture_drag,
            ..
        } => Element::ScrollView {
            id,
            style: s,
            children,
            scroll_x,
            scroll_y,
            scroll_sensitivity,
            dynamic_sensitivity,
            momentum_scrolling,
            capture_drag,
        },
        Element::Checkbox { id, checked, .. } => Element::Checkbox { id, checked, style: s },
        Element::Slider { id, value, min, max, .. } => Element::Slider {
            id,
            value,
            min,
            max,
            style: s,
        },
        Element::ProgressBar { id, value, max, .. } => Element::ProgressBar {
            id,
            value,
            max,
            style: s,
        },
    }
}

/// The nodes whose style `set_style` replaces, and `style_of` reads: any node with id `id`.
pub open spec fn style_hit<S, N>(id: Seq<char>) -> spec_fn(Element<S, N>) -> bool {
    |e: Element<S, N>| id_view(e) == Some(id)
}

/// The style becomes `s`; nothing else changes.
pub open spec fn style_change<S, N>(s: S) -> spec_fn(Element<S, N>, Element<S, N>) -> bool {
    |old: Element<S, N>, new: Element<S, N>| new == with_style(old, s)
}

/// The first node of the tree, in pre-order, that satisfies `hit` (meaningful
/// when there is one).
pub open spec fn first_hit<S, N>(e: Element<S, N>, hit: spec_fn(Element<S, N>) -> bool) -> Element<
    S,
    N,
>
    decreases e,
{
    if hit(e) {
        e
    } else {
        match e {
            Element::Container { children, .. } => first_hit_in(children@, hit),
            Element::ScrollView { children, .. } => first_hit_in(children@, hit),
            _ => e,
        }
    }
}

/// The first node satisfying `hit` in the first tree of `s` that holds one.
pub open spec fn first_hit_in<S, N>(
    s: Seq<Element<S, N>>,
    hit: spec_fn(Element<S, N>) -> bool,
) -> Element<S, N>
    decreases s,
{
    if s.len() == 0 {
        vstd::pervasive::arbitrary()
    } else if found_in(s.drop_last(), hit) {
        first_hit_in(s.drop_last(), hit)
    } else {
        first_hit(s.last(), hit)
    }
}

/// A change to a tree, carried down to the node it applies to.
#[verifier::reject_recursive_types(S)]
#[verifier::reject_recursive_types(N)]
enum Edit<S, N> {
    Text(String),
    State { property: Vec<char>, value: N, positive: bool },
    Insert(Element<S, N>),
    Remove,
    Style(S),
}

spec fn hit_of<S, N>(id: Seq<char>, edit: Edit<S, N>) -> spec_fn(Element<S, N>) -> bool {
    match edit {
        Edit::Text(_) => text_hit(id),
        Edit::State { property, .. } => state_hit(id, property@),
        Edit::Insert(_) => insert_hit(id),
        Edit::Remove => remove_hit(id),
        Edit::Style(_) => style_hit(id),
    }
}

spec fn change_of<S, N>(id: Seq<char>, edit: Edit<S, N>) -> spec_fn(Element<S, N>, Element<S, N>) -> bool {
    match edit {
        Edit::Text(t) => text_change(t@),
        Edit::State { property, value, positive } => state_change(property@, value, positive),
        Edit::Insert(c) => insert_change(c),
        Edit::Remove => remove_change(id),
        Edit::Style(st) => style_change(st),
    }
}

impl<S, N> Element<S, N> {
    /// The id of the element, if any.
    pub fn id(&self) -> (r: Option<&str>)
        ensures
            match r {
                Some(s) => id_view(*self) == Some(s@),
                None => id_view(*self) is None,
            },
    {
        let id = match self {
            Element::Container { id, .. } => id,
            Element::Label { id, .. } => id,
            Element::Image { id, .. } => id,
            Element::TextInput { id, .. } => id,
            Element::ScrollView { id, .. } => id,
            Element::Checkbox { id, .. } => id,
            Element::Slider { id, .. } => id,
            Element::ProgressBar { id, .. } => id,
        };
        match id {
            Some(s) => Some(s.as_str()),
            None => None,
        }
    }

    /// Whether the element's id is `target`.
    fn has_id(&self, target: &[char]) -> (r: bool)
        ensures
            r == (id_view(*self) == Some(target@)),
    {
        match self.id() {
            Some(s) => {
                let c = chars_of(s);
                chars_eq(c.as_slice(), target)
            },
            None => false,
        }
    }
}

/// The position of the first tree of `children` whose root has id `target`.
fn first_with_id_in<S, N>(children: &Vec<Element<S, N>>, target: &[char]) -> (r: Option<usize>)
    ensures
        match r {
            Some(k) => first_with_id(children@, target@, k as int),
            None => forall|j: int|
                0 <= j < children@.len() ==> id_view(#[trigger] children@[j]) != Some(target@),
        },
{
    let mut i: usize = 0;
    while i < children.len()
        invariant
            i <= children.len(),
            forall|j: int| 0 <= j < i ==> id_view(#[trigger] children@[j]) != Some(target@),
        decreases children.len() - i,
    {
        if children[i].has_id(target) {
            return Some(i);
        }
        i += 1;
    }
    None
}

impl<S, N> Element<S, N> {
    /// Whether the node can hold state named `property`.
    fn knows_state(&self, property: &[char]) -> (r: bool)
        ensures
            r == has_state(*self, property@),
    {
        match self {
            Element::ScrollView { .. } => {
                let x = chars_of("scroll_x");
                let y = chars_of("scroll_y");
                chars_eq(property, x.as_slice()) || chars_eq(property, y.as_slice())
            },
            Element::Checkbox { .. } => {
                let c = chars_of("checked");
                chars_eq(property, c.as_slice())
            },
            Element::Slider { .. } | Element::ProgressBar { .. } => {
                let v = chars_of("value");
                chars_eq(property, v.as_slice())
            },
            _ => false,
        }
    }

    /// Whether `edit` applies to this very node.
    fn is_hit(&self, target: &[char], edit: &Edit<S, N>) -> (r: bool)
        ensures
            r == hit_of(target@, *edit)(*self),
    {
        match edit {
            Edit::Text(_) => match self {
                Element::Label { .. } | Element::TextInput { .. } => self.has_id(target),
                _ => false,
            },
            Edit::State { property, .. } => self.has_id(target) && self.knows_state(
                property.as_slice(),
            ),
            Edit::Insert(_) => match self {
                Element::Container { .. } | Element::ScrollView { .. } => self.has_id(target),
                _ => false,
            },
            Edit::Remove => match self {
                Element::Container { children, .. } | Element::ScrollView { children, .. } => {
                    match first_with_id_in(children, target) {
                        Some(k) => {
                            proof {
                                assert(id_view(children_of(*self)[k as int]) == Some(target@));
                            }
                            true
                        },
                        None => false,
                    }
                },
                _ => false,
            },
            Edit::Style(_) => self.has_id(target),
        }
    }

    /// Whether `edit` applies to some node of the tree.
    fn search(&self, target: &[char], edit: &Edit<S, N>) -> (r: bool)
        ensures
            r == found(*self, hit_of(target@, *edit)),
        decreases self,
    {
        if self.is_hit(target, edit) {
            return true;
        }
        match self {
            Element::Container { children, .. } | Element::ScrollView { children, .. } => {
                let ghost hit = hit_of(target@, *edit);
                let mut i: usize = 0;
                while i < children.len()
                    invariant
                        i <= children.len(),
                        children_of(*self) == children@,
                        is_parent(*self),
                        !hit(*self),
                        hit == hit_of(target@, *edit),
                        found(*self, hit) == found_in(children@, hit),
                        !found_in(children@.subrange(0, i as int), hit),
                    decreases children.len() - i,
                {
                    proof {
                        lemma_child_decreases(*self, i as int);
                        assert(children@.subrange(0, i as int + 1).drop_last() =~= children@.subrange(
                            0,
                            i as int,
                        ));
                    }
                    if children[i].search(target, edit) {
                        proof {
                            lemma_found_in_prefix(children@, i as int + 1, hit);
                        }
                        return true;
                    }
                    i += 1;
                }
                proof {
                    assert(children@.subrange(0, i as int) =~= children@);
                }
                false
            },
            _ => false,
        }
    }

    /// Applies `edit` to this node, which it is meant for.
    fn apply_here(&mut self, target: &[char], edit: Edit<S, N>)
        requires
            hit_of(target@, edit)(*old(self)),
        ensures
            change_of(target@, edit)(*old(self), *final(self)),
    {
        match edit {
            Edit::Text(t) => match self {
                Element::Label { text, .. } => {
                    *text = t;
                },
                Element::TextInput { value, .. } => {
                    *value = t;
                },
                _ => {},
            },
            Edit::State { property, value, positive } => {
                let x = chars_of("scroll_x");
                let is_x = chars_eq(property.as_slice(), x.as_slice());
                match self {
                    Element::ScrollView { scroll_x, scroll_y, .. } => {
                        if is_x {
                            *scroll_x = value;
                        } else {
                            *scroll_y = value;
                        }
                    },
                    Element::Checkbox { checked, .. } => {
                        *checked = positive;
                    },
                    Element::Slider { value: v, .. } => {
                        *v = value;
                    },
                    Element::ProgressBar { value: v, .. } => {
                        *v = value;
                    },
                    _ => {},
                }
            },
            Edit::Insert(c) => match self {
                Element::Container { children, .. } => {
                    children.push(c);
                },
                Element::ScrollView { children, .. } => {
                    children.push(c);
                },
                _ => {},
            },
            Edit::Remove => match self {
                Element::Container { children, .. } => {
                    Self::remove_first(children, target);
                },
                Element::ScrollView { children, .. } => {
                    Self::remove_first(children, target);
                },
                _ => {},
            },
            Edit::Style(st) => match self {
                Element::Container { style, .. } => {
                    *style = st;
                },
                Element::Label { style, .. } => {
                    *style = st;
                },
                Element::Image { style, .. } => {
                    *style = st;
                },
                Element::TextInput { style, .. } => {
                    *style = st;
                },
                Element::ScrollView { style, .. } => {
                    *style = st;
                },
                Element::Checkbox { style, .. } => {
                    *style = st;
                },
                Element::Slider { style, .. } => {
                    *style = st;
                },
                Element::ProgressBar { style, .. } => {
                    *style = st;
                },
            },
        }
    }

    /// Removes the first tree of `children` whose root has id `target`.
    fn remove_first(children: &mut Vec<Element<S, N>>, target: &[char])
        requires
            exists|k: int|
                0 <= k < old(children)@.len() && id_view(#[trigger] old(children)@[k]) == Some(
                    target@,
                ),
        ensures
            exists|k: int|
                first_with_id(old(children)@, target@, k) && final(children)@ == old(children)@.remove(k),
    {
        match first_with_id_in(children, target) {
            Some(k) => {
                children.remove(k);
                assert(first_with_id(old(children)@, target@, k as int));
            },
            None => {},
        }
    }

    /// Applies `edit` to the first node of the tree, in pre-order, that it is meant for.
    fn apply_at(&mut self, target: &[char], edit: Edit<S, N>)
        requires
            found(*old(self), hit_of(target@, edit)),
        ensures
            edited(*old(self), *final(self), hit_of(target@, edit), change_of(target@, edit)),
        decreases *old(self),
    {
        if self.is_hit(target, &edit) {
            self.apply_here(target, edit);
            return;
        }
        let ghost old_self = *self;
        match self {
            Element::Container { children, .. } => {
                proof {
                    assert(decreases_to!(old_self => *children));
                }
                Self::apply_in(children, target, edit);
            },
            Element::ScrollView { children, .. } => {
                proof {
                    assert(decreases_to!(old_self => *children));
                }
                Self::apply_in(children, target, edit);
            },
            _ => {},
        }
    }

    /// Applies `edit` inside the first tree of `children` that holds a node it is meant for.
    fn apply_in(children: &mut Vec<Element<S, N>>, target: &[char], edit: Edit<S, N>)
        requires
            found_in(old(children)@, hit_of(target@, edit)),
        ensures
            edited_in(old(children)@, final(children)@, hit_of(target@, edit), change_of(target@, edit)),
        decreases *old(children),
    {
        let ghost old_children = children@;
        let ghost hit = hit_of(target@, edit);
        let mut i: usize = 0;
        proof {
            assert(old_children.subrange(0, 0) =~= Seq::<Element<S, N>>::empty());
        }
        while i < children.len()
            invariant_except_break
                i < children.len(),
                children@ == old_children,
                hit == hit_of(target@, edit),
                found_in(old_children, hit),
                !found_in(old_children.subrange(0, i as int), hit),
            ensures
                i < children.len(),
                children@ == old_children,
                !found_in(old_children.subrange(0, i as int), hit),
                found(old_children[i as int], hit),
            decreases children.len() - i,
        {
            if children[i].search(target, &edit) {
                break;
            }
            proof {
                assert(old_children.subrange(0, i as int + 1).drop_last() =~= old_children.subrange(
                    0,
                    i as int,
                ));
                if i + 1 == children.len() {
                    assert(old_children.subrange(0, i as int + 1) =~= old_children);
                }
            }
            i += 1;
        }
        proof {
            assert(decreases_to!(*old(children) => (*old(children))@));
            assert(decreases_to!((*old(children))@ => (*old(children))@[i as int]));
        }
        let ghost change = change_of(target@, edit);
        let mut child = children.remove(i);
        child.apply_at(target, edit);
        children.insert(i, child);
        proof {
            assert(children@ =~= old_children.update(i as int, child));
            lemma_edited_in_update(old_children, i as int, child, hit, change);
        }
    }

    /// Applies `edit` where it is meant to go, if anywhere; tells whether it went.
    fn apply(&mut self, target: &[char], edit: Edit<S, N>) -> (changed: bool)
        ensures
            changed == found(*old(self), hit_of(target@, edit)),
            changed ==> edited(
                *old(self),
                *final(self),
                hit_of(target@, edit),
                change_of(target@, edit),
            ),
            !changed ==> *final(self) == *old(self),
    {
        if self.search(target, &edit) {
            self.apply_at(target, edit);
            true
        } else {
            false
        }
    }

    /// Sets the text of the first label or text input (in pre-order) whose id is
    /// `target_id`; tells whether there was one. The tree is unchanged otherwise.
    pub fn mutate_text(&mut self, target_id: &str, new_text: &str) -> (changed: bool)
        ensures
            changed == found(*old(self), text_hit(target_id@)),
            changed ==> edited(
                *old(self),
                *final(self),
                text_hit(target_id@),
                text_change(new_text@),
            ),
            !changed ==> *final(self) == *old(self),
    {
        let target = chars_of(target_id);
        let t = String::from_str(new_text);
        self.apply(target.as_slice(), Edit::Text(t))
    }

    /// Sets the state named `property` ("scroll_x" or "scroll_y" of a scroll view,
    /// "checked" of a checkbox, "value" of a slider or progress bar) of the first
    /// node (in pre-order) with id `target_id` that has it; tells whether there was
    /// one. A checkbox becomes checked when `positive`, which says whether
    /// `new_val` is greater than zero. The tree is unchanged otherwise.
    pub fn mutate_state(&mut self, target_id: &str, property: &str, new_val: N, positive: bool) -> (changed: bool)
        ensures
            changed == found(*old(self), state_hit(target_id@, property@)),
            changed ==> edited(
                *old(self),
                *final(self),
                state_hit(target_id@, property@),
                state_change(property@, new_val, positive),
            ),
            !changed ==> *final(self) == *old(self),
    {
        let target = chars_of(target_id);
        let p = chars_of(property);
        self.apply(target.as_slice(), Edit::State { property: p, value: new_val, positive })
    }

    /// Appends `child` to the first container or scroll view (in pre-order) whose id
    /// is `parent_id`; tells whether there was one. The tree is unchanged otherwise.
    pub fn insert_child(&mut self, parent_id: &str, child: Self) -> (inserted: bool)
        ensures
            inserted == found(*old(self), insert_hit(parent_id@)),
            inserted ==> edited(
                *old(self),
                *final(self),
                insert_hit(parent_id@),
                insert_change(child),
            ),
            !inserted ==> *final(self) == *old(self),
    {
        let target = chars_of(parent_id);
        self.apply(target.as_slice(), Edit::Insert(child))
    }

    /// Removes the first node with id `target_id`: a parent's own children are looked
    /// at before its descendants, and the root itself is never removed. Tells whether
    /// a node was removed; the tree is unchanged otherwise.
    pub fn remove_node(&mut self, target_id: &str) -> (removed: bool)
        ensures
            removed == found(*old(self), remove_hit(target_id@)),
            removed ==> edited(
                *old(self),
                *final(self),
                remove_hit(target_id@),
                remove_change(target_id@),
            ),
            !removed ==> *final(self) == *old(self),
    {
        let target = chars_of(target_id);
        self.apply(target.as_slice(), Edit::Remove)
    }
}

impl<S, N> Element<S, N> {
    /// The style of the element, whatever its kind.
    pub fn style(&self) -> (s: &S)
        ensures
            *s == style_view(*self),
    {
        match self {
            Element::Container { style, .. } => style,
            Element::Label { style, .. } => style,
            Element::Image { style, .. } => style,
            Element::TextInput { style, .. } => style,
            Element::ScrollView { style, .. } => style,
            Element::Checkbox { style, .. } => style,
            Element::Slider { style, .. } => style,
            Element::ProgressBar { style, .. } => style,
        }
    }

    /// The style of the first node (in pre-order) whose id is `target_id`, if any.
    pub fn style_of(&self, target_id: &str) -> (r: Option<&S>)
        ensures
            r is Some <==> found(*self, style_hit(target_id@)),
            r matches Some(s) ==> *s == style_view(first_hit(*self, style_hit(target_id@))),
    {
        let target = chars_of(target_id);
        self.find_style(target.as_slice())
    }

    fn find_style(&self, target: &[char]) -> (r: Option<&S>)
        ensures
            r is Some <==> found(*self, style_hit(target@)),
            r matches Some(s) ==> *s == style_view(first_hit(*self, style_hit(target@))),
        decreases self,
    {
        if self.has_id(target) {
            return Some(self.style());
        }
        match self {
            Element::Container { children, .. } | Element::ScrollView { children, .. } => {
                let ghost hit = style_hit::<S, N>(target@);
                let mut i: usize = 0;
                while i < children.len()
                    invariant
                        i <= children.len(),
                        children_of(*self) == children@,
                        is_parent(*self),
                        !hit(*self),
                        hit == style_hit::<S, N>(target@),
                        found(*self, hit) == found_in(children@, hit),
                        first_hit(*self, hit) == first_hit_in(children@, hit),
                        !found_in(children@.subrange(0, i as int), hit),
                    decreases children.len() - i,
                {
                    proof {
                        lemma_child_decreases(*self, i as int);
                        assert(children@.subrange(0, i as int + 1).drop_last() =~= children@.subrange(
                            0,
                            i as int,
                        ));
                    }
                    match children[i].find_style(target) {
                        Some(st) => {
                            proof {
                                lemma_found_in_prefix(children@, i as int + 1, hit);
                                lemma_first_hit_at(children@, i as int, hit);
                            }
                            return Some(st);
                        },
                        None => {},
                    }
                    i += 1;
                }
                proof {
                    assert(children@.subrange(0, i as int) =~= children@);
                }
                None
            },
            _ => None,
        }
    }

    /// Replaces the style of the first node (in pre-order) whose id is
    /// `target_id`; tells whether there was one. The tree is unchanged otherwise.
    pub fn set_style(&mut self, target_id: &str, style: S) -> (changed: bool)
        ensures
            changed == found(*old(self), style_hit(target_id@)),
            changed ==> edited(
                *old(self),
                *final(self),
                style_hit(target_id@),
                style_change(style),
            ),
            !changed ==> *final(self) == *old(self),
    {
        let target = chars_of(target_id);
        self.apply(target.as_slice(), Edit::Style(style))
    }
}

/// The first hit of a sequence is the first hit of its first tree that holds one.
proof fn lemma_first_hit_at<S, N>(s: Seq<Element<S, N>>, k: int, hit: spec_fn(Element<S, N>) -> bool)
    requires
        0 <= k < s.len(),
        !found_in(s.subrange(0, k), hit),
        found(s[k], hit),
    ensures
        first_hit_in(s, hit) == first_hit(s[k], hit),
    decreases s.len(),
{
    if k < s.len() - 1 {
        lemma_found_at(s.drop_last(), k, hit);
        assert(s.drop_last().subrange(0, k) =~= s.subrange(0, k));
        lemma_first_hit_at(s.drop_last(), k, hit);
    } else {
        assert(s.drop_last() =~= s.subrange(0, k));
    }
}

/// A hit in a prefix of a sequence is a hit in the whole sequence.
proof fn lemma_found_in_prefix<S, N>(s: Seq<Element<S, N>>, k: int, hit: spec_fn(Element<S, N>) -> bool)
    requires
        0 <= k <= s.len(),
        found_in(s.subrange(0, k), hit),
    ensures
        found_in(s, hit),
    decreases s.len(),
{
    if k < s.len() {
        assert(s.drop_last().subrange(0, k) =~= s.subrange(0, k));
        lemma_found_in_prefix(s.drop_last(), k, hit);
    } else {
        assert(s.subrange(0, k) =~= s);
    }
}

/// A hit inside one tree of a sequence is a hit in the sequence.
proof fn lemma_found_at<S, N>(s: Seq<Element<S, N>>, k: int, hit: spec_fn(Element<S, N>) -> bool)
    requires
        0 <= k < s.len(),
        found(s[k], hit),
    ensures
        found_in(s, hit),
    decreases s.len(),
{
    if k < s.len() - 1 {
        lemma_found_at(s.drop_last(), k, hit);
    }
}

/// Editing the first tree that holds a hit edits the sequence as `edited_in` says.
proof fn lemma_edited_in_update<S, N>(
    old: Seq<Element<S, N>>,
    k: int,
    nc: Element<S, N>,
    hit: spec_fn(Element<S, N>) -> bool,
    change: spec_fn(Element<S, N>, Element<S, N>) -> bool,
)
    requires
        0 <= k < old.len(),
        !found_in(old.subrange(0, k), hit),
        found(old[k], hit),
        edited(old[k], nc, hit, change),
    ensures
        edited_in(old, old.update(k, nc), hit, change),
    decreases old.len(),
{
    let new = old.update(k, nc);
    if k < old.len() - 1 {
        lemma_found_at(old.drop_last(), k, hit);
        assert(old.drop_last().subrange(0, k) =~= old.subrange(0, k));
        lemma_edited_in_update(old.drop_last(), k, nc, hit, change);
        assert(new.drop_last() =~= old.drop_last().update(k, nc));
    } else {
        assert(old.drop_last() =~= old.subrange(0, k));
        assert(new.drop_last() =~= old.drop_last());
    }
}

/// A relation between node counts that survives adding the same number to both sides.
pub open spec fn shift_stable(rel: spec_fn(int, int) -> bool) -> bool {
    forall|x: int, y: int, x2: int, y2: int|
        #![trigger rel(x, y), rel(x2, y2)]
        rel(x, y) && x2 - x == y2 - y ==> rel(x2, y2)
}

/// If every change at a hit relates the node counts of the changed subtree by `rel`,
/// then so does the edit of the whole tree.
proof fn lemma_edited_size<S, N>(
    old: Element<S, N>,
    new: Element<S, N>,
    hit: spec_fn(Element<S, N>) -> bool,
    change: spec_fn(Element<S, N>, Element<S, N>) -> bool,
    rel: spec_fn(int, int) -> bool,
)
    requires
        found(old, hit),
        edited(old, new, hit, change),
        shift_stable(rel),
        forall|a: Element<S, N>, b: Element<S, N>|
            hit(a) && #[trigger] change(a, b) ==> rel(tree_size(a) as int, tree_size(b) as int),
    ensures
        rel(tree_size(old) as int, tree_size(new) as int),
    decreases old,
{
    if !hit(old) {
        match old {
            Element::Container { children, .. } => {
                lemma_edited_in_size(children@, children_of(new), hit, change, rel);
                assert(rel(forest_size(children@) as int, forest_size(children_of(new)) as int));
                assert(rel(tree_size(old) as int, tree_size(new) as int));
            },
            Element::ScrollView { children, .. } => {
                lemma_edited_in_size(children@, children_of(new), hit, change, rel);
                assert(rel(forest_size(children@) as int, forest_size(children_of(new)) as int));
                assert(rel(tree_size(old) as int, tree_size(new) as int));
            },
            _ => {},
        }
    }
}

/// The sequence form of `lemma_edited_size`.
proof fn lemma_edited_in_size<S, N>(
    old: Seq<Element<S, N>>,
    new: Seq<Element<S, N>>,
    hit: spec_fn(Element<S, N>) -> bool,
    change: spec_fn(Element<S, N>, Element<S, N>) -> bool,
    rel: spec_fn(int, int) -> bool,
)
    requires
        found_in(old, hit),
        edited_in(old, new, hit, change),
        shift_stable(rel),
        forall|a: Element<S, N>, b: Element<S, N>|
            hit(a) && #[trigger] change(a, b) ==> rel(tree_size(a) as int, tree_size(b) as int),
    ensures
        rel(forest_size(old) as int, forest_size(new) as int),
    decreases old,
{
    if found_in(old.drop_last(), hit) {
        lemma_edited_in_size(old.drop_last(), new.drop_last(), hit, change, rel);
        assert(rel(forest_size(old.drop_last()) as int, forest_size(new.drop_last()) as int));
        assert(rel(forest_size(old) as int, forest_size(new) as int));
    } else {
        lemma_edited_size(old.last(), new.last(), hit, change, rel);
        assert(rel(tree_size(old.last()) as int, tree_size(new.last()) as int));
        assert(rel(forest_size(old) as int, forest_size(new) as int));
    }
}

/// Removing one tree from a sequence removes exactly its nodes.
proof fn lemma_forest_size_remove<S, N>(s: Seq<Element<S, N>>, k: int)
    requires
        0 <= k < s.len(),
    ensures
        forest_size(s.remove(k)) + tree_size(s[k]) == forest_size(s),
    decreases s.len(),
{
    if k == s.len() - 1 {
        assert(s.remove(k) =~= s.drop_last());
    } else {
        lemma_forest_size_remove(s.drop_last(), k);
        assert(s.remove(k).drop_last() =~= s.drop_last().remove(k));
        assert(s.remove(k).last() == s.last());
    }
}

/// Appending a tree to a sequence adds exactly its nodes.
proof fn lemma_forest_size_push<S, N>(s: Seq<Element<S, N>>, c: Element<S, N>)
    ensures
        forest_size(s.push(c)) == forest_size(s) + tree_size(c),
{
    assert(s.push(c).drop_last() =~= s);
}

/// Setting a text (`mutate_text`) leaves the number of nodes unchanged.
pub proof fn mutate_text_keeps_size<S, N>(
    old: Element<S, N>,
    new: Element<S, N>,
    id: Seq<char>,
    t: Seq<char>,
)
    requires
        found(old, text_hit(id)),
        edited(old, new, text_hit(id), text_change(t)),
    ensures
        tree_size(new) == tree_size(old),
{
    let rel = |x: int, y: int| x == y;
    lemma_edited_size(old, new, text_hit(id), text_change(t), rel);
}

/// Setting a state (`mutate_state`) leaves the number of nodes unchanged.
pub proof fn mutate_state_keeps_size<S, N>(
    old: Element<S, N>,
    new: Element<S, N>,
    id: Seq<char>,
    property: Seq<char>,
    value: N,
    positive: bool,
)
    requires
        found(old, state_hit(id, property)),
        edited(old, new, state_hit(id, property), state_change(property, value, positive)),
    ensures
        tree_size(new) == tree_size(old),
{
    let rel = |x: int, y: int| x == y;
    lemma_edited_size(old, new, state_hit(id, property), state_change(property, value, positive), rel);
}

/// Inserting a child (`insert_child`) adds exactly the child's nodes.
pub proof fn insert_child_adds_its_nodes<S, N>(
    old: Element<S, N>,
    new: Element<S, N>,
    id: Seq<char>,
    child: Element<S, N>,
)
    requires
        found(old, insert_hit(id)),
        edited(old, new, insert_hit(id), insert_change(child)),
    ensures
        tree_size(new) == tree_size(old) + tree_size(child),
{
    let d = tree_size(child) as int;
    let rel = |x: int, y: int| y == x + d;
    assert forall|a: Element<S, N>, b: Element<S, N>|
        insert_hit(id)(a) && #[trigger] insert_change(child)(a, b) implies rel(
        tree_size(a) as int,
        tree_size(b) as int,
    ) by {
        lemma_forest_size_push(children_of(a), child);
    }
    lemma_edited_size(old, new, insert_hit(id), insert_change(child), rel);
}

/// If every change at a hit removes `f` of the hit node's nodes, the edit of
/// the whole tree removes `f` of its first hit's nodes.
proof fn lemma_edited_size_at<S, N>(
    old: Element<S, N>,
    new: Element<S, N>,
    hit: spec_fn(Element<S, N>) -> bool,
    change: spec_fn(Element<S, N>, Element<S, N>) -> bool,
    f: spec_fn(Element<S, N>) -> int,
)
    requires
        found(old, hit),
        edited(old, new, hit, change),
        forall|a: Element<S, N>, b: Element<S, N>|
            hit(a) && #[trigger] change(a, b) ==> tree_size(b) + f(a) == tree_size(a),
    ensures
        tree_size(new) + f(first_hit(old, hit)) == tree_size(old),
    decreases old,
{
    if !hit(old) {
        match old {
            Element::Container { children, .. } => {
                lemma_edited_in_size_at(children@, children_of(new), hit, change, f);
            },
            Element::ScrollView { children, .. } => {
                lemma_edited_in_size_at(children@, children_of(new), hit, change, f);
            },
            _ => {},
        }
    }
}

/// The sequence form of `lemma_edited_size_at`.
proof fn lemma_edited_in_size_at<S, N>(
    old: Seq<Element<S, N>>,
    new: Seq<Element<S, N>>,
    hit: spec_fn(Element<S, N>) -> bool,
    change: spec_fn(Element<S, N>, Element<S, N>) -> bool,
    f: spec_fn(Element<S, N>) -> int,
)
    requires
        found_in(old, hit),
        edited_in(old, new, hit, change),
        forall|a: Element<S, N>, b: Element<S, N>|
            hit(a) && #[trigger] change(a, b) ==> tree_size(b) + f(a) == tree_size(a),
    ensures
        forest_size(new) + f(first_hit_in(old, hit)) == forest_size(old),
    decreases old,
{
    if found_in(old.drop_last(), hit) {
        lemma_edited_in_size_at(old.drop_last(), new.drop_last(), hit, change, f);
    } else {
        lemma_edited_size_at(old.last(), new.last(), hit, change, f);
    }
}

/// The position of the first tree of `s` whose root has id `id` (meaningful
/// when there is one).
pub open spec fn first_id_index<S, N>(s: Seq<Element<S, N>>, id: Seq<char>) -> int {
    choose|k: int| first_with_id(s, id, k)
}

/// The node that `remove_node` removes: the first direct child with the id of
/// the first parent, in pre-order, that has one.
pub open spec fn removed_node<S, N>(e: Element<S, N>, id: Seq<char>) -> Element<S, N> {
    let p = first_hit(e, remove_hit(id));
    children_of(p)[first_id_index(children_of(p), id)]
}

/// Removing a node (`remove_node`) removes exactly the nodes of the removed
/// subtree.
pub proof fn remove_node_removes_its_subtree<S, N>(
    old: Element<S, N>,
    new: Element<S, N>,
    id: Seq<char>,
)
    requires
        found(old, remove_hit(id)),
        edited(old, new, remove_hit(id), remove_change(id)),
    ensures
        tree_size(new) + tree_size(removed_node(old, id)) == tree_size(old),
        tree_size(new) < tree_size(old),
{
    let f = |a: Element<S, N>| tree_size(children_of(a)[first_id_index(children_of(a), id)]) as int;
    assert forall|a: Element<S, N>, b: Element<S, N>|
        remove_hit(id)(a) && #[trigger] remove_change(id)(a, b) implies tree_size(b) + f(a)
        == tree_size(a) by {
        let s = children_of(a);
        let k = choose|k: int| first_with_id(s, id, k) && children_of(b) == s.remove(k);
        let c = first_id_index(s, id);
        assert(first_with_id(s, id, c));
        if c < k {
            assert(id_view(s[c]) != Some(id));
        }
        if k < c {
            assert(id_view(s[k]) != Some(id));
        }
        assert(c == k);
        lemma_forest_size_remove(s, k);
    }
    lemma_edited_size_at(old, new, remove_hit(id), remove_change(id), f);
}

/// Reading a style back after `set_style` gives the style set: the first node
/// with the id is still the first, and holds the new style.
pub proof fn style_of_after_set_style<S, N>(
    old: Element<S, N>,
    new: Element<S, N>,
    id: Seq<char>,
    style: S,
)
    requires
        found(old, style_hit(id)),
        edited(old, new, style_hit(id), style_change(style)),
    ensures
        found(new, style_hit(id)),
        style_view(first_hit(new, style_hit(id))) == style,
{
    let hit = style_hit::<S, N>(id);
    let change = style_change::<S, N>(style);
    assert forall|a: Element<S, N>, b: Element<S, N>| hit(a) && #[trigger] change(a, b) implies hit(b) by {}
    assert forall|a: Element<S, N>, b: Element<S, N>| #[trigger] same_but_children(a, b) implies (
    hit(a) <==> hit(b)) by {}
    lemma_first_hit_after_edit(old, new, hit, change);
}

/// Replacing a style (`set_style`) leaves the number of nodes unchanged.
pub proof fn set_style_keeps_size<S, N>(old: Element<S, N>, new: Element<S, N>, id: Seq<char>, style: S)
    requires
        found(old, style_hit(id)),
        edited(old, new, style_hit(id), style_change(style)),
    ensures
        tree_size(new) == tree_size(old),
{
    let rel = |x: int, y: int| x == y;
    lemma_edited_size(old, new, style_hit(id), style_change(style), rel);
}

/// After an edit whose change keeps the node a hit, and where parents that
/// differ only in their children are hits alike, the first hit of the edited
/// tree is the changed first hit of the original tree.
proof fn lemma_first_hit_after_edit<S, N>(
    old: Element<S, N>,
    new: Element<S, N>,
    hit: spec_fn(Element<S, N>) -> bool,
    change: spec_fn(Element<S, N>, Element<S, N>) -> bool,
)
    requires
        found(old, hit),
        edited(old, new, hit, change),
        forall|a: Element<S, N>, b: Element<S, N>| hit(a) && #[trigger] change(a, b) ==> hit(b),
        forall|a: Element<S, N>, b: Element<S, N>|
            #[trigger] same_but_children(a, b) ==> (hit(a) <==> hit(b)),
    ensures
        found(new, hit),
        change(first_hit(old, hit), first_hit(new, hit)),
    decreases old,
{
    if !hit(old) {
        match old {
            Element::Container { children, .. } => {
                lemma_first_hit_in_after_edit(children@, children_of(new), hit, change);
            },
            Element::ScrollView { children, .. } => {
                lemma_first_hit_in_after_edit(children@, children_of(new), hit, change);
            },
            _ => {},
        }
    }
}

/// The sequence form of `lemma_first_hit_after_edit`.
proof fn lemma_first_hit_in_after_edit<S, N>(
    old: Seq<Element<S, N>>,
    new: Seq<Element<S, N>>,
    hit: spec_fn(Element<S, N>) -> bool,
    change: spec_fn(Element<S, N>, Element<S, N>) -> bool,
)
    requires
        found_in(old, hit),
        edited_in(old, new, hit, change),
        forall|a: Element<S, N>, b: Element<S, N>| hit(a) && #[trigger] change(a, b) ==> hit(b),
        forall|a: Element<S, N>, b: Element<S, N>|
            #[trigger] same_but_children(a, b) ==> (hit(a) <==> hit(b)),
    ensures
        found_in(new, hit),
        change(first_hit_in(old, hit), first_hit_in(new, hit)),
    decreases old,
{
    if found_in(old.drop_last(), hit) {
        lemma_first_hit_in_after_edit(old.drop_last(), new.drop_last(), hit, change);
    } else {
        lemma_first_hit_after_edit(old.last(), new.last(), hit, change);
    }
}

/// Reading a text back after `mutate_text` gives the text set: the first label
/// or text input with the id is still the first, and holds the new text.
pub proof fn text_after_mutate_text<S, N>(
    old: Element<S, N>,
    new: Element<S, N>,
    id: Seq<char>,
    t: Seq<char>,
)
    requires
        found(old, text_hit(id)),
        edited(old, new, text_hit(id), text_change(t)),
    ensures
        found(new, text_hit(id)),
        (match first_hit(new, text_hit(id)) {
            Element::Label { text, .. } => text@ == t,
            Element::TextInput { value, .. } => value@ == t,
            _ => false,
        }),
{
    let hit = text_hit::<S, N>(id);
    let change = text_change::<S, N>(t);
    assert forall|a: Element<S, N>, b: Element<S, N>| #[trigger] same_but_children(a, b) implies (
    hit(a) <==> hit(b)) by {}
    lemma_first_hit_after_edit(old, new, hit, change);
}


/// The states that `mutate_state` sets are exactly these: the scroll offsets
/// `scroll_x` and `scroll_y` of a scroll view, `checked` of a checkbox, and
/// `value` of a slider or of a progress bar. A node with the target id that
/// has the state is found, and the edit gives it the new state: the value
/// `value`, or for a checkbox checked exactly when `positive`.
pub proof fn mutate_state_sets_the_named_state<S, N>(
    e: Element<S, N>,
    new: Element<S, N>,
    id: Seq<char>,
    property: Seq<char>,
    value: N,
    positive: bool,
)
    ensures
        state_hit(id, property)(e) <==> id_view(e) == Some(id) && {
            ||| e is ScrollView && (property == "scroll_x"@ || property == "scroll_y"@)
            ||| e is Checkbox && property == "checked"@
            ||| e is Slider && property == "value"@
            ||| e is ProgressBar && property == "value"@
        },
        state_hit(id, property)(e) ==> found(e, state_hit(id, property)),
        state_hit(id, property)(e) && edited(
            e,
            new,
            state_hit(id, property),
            state_change(property, value, positive),
        ) ==> {
            &&& e is Slider ==> new is Slider && new->Slider_value == value
            &&& e is ProgressBar ==> new is ProgressBar && new->ProgressBar_value == value
            &&& e is Checkbox ==> new is Checkbox && new->Checkbox_checked == positive
            &&& e is ScrollView && property == "scroll_x"@ ==> new is ScrollView
                && new->ScrollView_scroll_x == value
            &&& e is ScrollView && property == "scroll_y"@ ==> new is ScrollView
                && new->ScrollView_scroll_y == value
        },
{
    reveal_strlit("scroll_x");
    reveal_strlit("scroll_y");
    assert("scroll_x"@[7] != "scroll_y"@[7]);
}

} // verus!
