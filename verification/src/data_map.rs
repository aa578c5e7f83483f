//! Runtime data attached to widgets: content and behaviour overrides keyed by
//! widget id and property name.
use vstd::hash_map::StringHashMap;
use vstd::prelude::*;
use std::collections::HashMap;

use crate::widget::WidgetId;

verus! {

broadcast use vstd::std_specs::hash::group_hash_axioms;

/// A dynamic value that can be attached to any widget at runtime.
pub enum DataValue {
    /// Overrides the label or button text.
    Text(String),
    /// Shows or hides the widget.
    Visible(bool),
    /// Integer counter: badge counts, progress values.
    Counter(i64),
    /// Arbitrary JSON payload for plugin-specific uses.
    Custom(String),
}

/// The plain contents of a `DataValue`.
pub enum DataValueView {
    Text(Seq<char>),
    Visible(bool),
    Counter(i64),
    Custom(Seq<char>),
}

impl View for DataValue {
    type V = DataValueView;

    open spec fn view(&self) -> DataValueView {
        match self {
            DataValue::Text(s) => DataValueView::Text(s@),
            DataValue::Visible(b) => DataValueView::Visible(*b),
            DataValue::Counter(n) => DataValueView::Counter(*n),
            DataValue::Custom(s) => DataValueView::Custom(s@),
        }
    }
}

impl DataValue {
    /// A copy with the same contents.
    pub fn duplicate(&self) -> (r: Self)
        ensures
            r@ == self@,
    {
        match self {
            DataValue::Text(s) => DataValue::Text(s.clone()),
            DataValue::Visible(b) => DataValue::Visible(*b),
            DataValue::Counter(n) => DataValue::Counter(*n),
            DataValue::Custom(s) => DataValue::Custom(s.clone()),
        }
    }
}

/// Runtime data map: per widget, a map from property name to value.
pub struct DataMap {
    inner: HashMap<WidgetId, StringHashMap<DataValue>>,
}

/// The property name that holds a widget's visibility.
pub open spec fn visible_key() -> Seq<char> {
    "visible"@
}

/// The property name that holds a widget's label override.
pub open spec fn label_key() -> Seq<char> {
    "label"@
}

/// `entries` with property `key` of widget `id` set to `value`.
pub open spec fn with_value(
    entries: Map<WidgetId, Map<Seq<char>, DataValueView>>,
    id: WidgetId,
    key: Seq<char>,
    value: DataValueView,
) -> Map<WidgetId, Map<Seq<char>, DataValueView>> {
    entries.insert(
        id,
        if entries.contains_key(id) {
            entries[id].insert(key, value)
        } else {
            Map::empty().insert(key, value)
        },
    )
}

/// `entries` with property `key` of widget `id` removed.
pub open spec fn without_value(
    entries: Map<WidgetId, Map<Seq<char>, DataValueView>>,
    id: WidgetId,
    key: Seq<char>,
) -> Map<WidgetId, Map<Seq<char>, DataValueView>> {
    if entries.contains_key(id) {
        entries.insert(id, entries[id].remove(key))
    } else {
        entries
    }
}

impl Default for DataMap {
    fn default() -> (m: Self)
        ensures
            m.entries() == Map::<WidgetId, Map<Seq<char>, DataValueView>>::empty(),
    {
        DataMap::new()
    }
}

impl DataMap {
    /// The data of every widget that has some, by widget id and property name.
    pub closed spec fn entries(&self) -> Map<WidgetId, Map<Seq<char>, DataValueView>> {
        self.inner@.map_values(
            |m: StringHashMap<DataValue>| m@.map_values(|v: DataValue| v@),
        )
    }

    /// The value of property `key` of widget `id`, if any.
    pub open spec fn lookup(&self, id: WidgetId, key: Seq<char>) -> Option<DataValueView> {
        if self.entries().contains_key(id) && self.entries()[id].contains_key(key) {
            Some(self.entries()[id][key])
        } else {
            None
        }
    }

    /// An empty data map.
    pub fn new() -> (m: Self)
        ensures
            m.entries() == Map::<WidgetId, Map<Seq<char>, DataValueView>>::empty(),
    {
        let m = DataMap { inner: HashMap::new() };
        proof {
            assert(m.entries() =~= Map::empty());
        }
        m
    }

    /// Sets property `key` of widget `id` to `value`.
    pub fn set(&mut self, id: WidgetId, key: &str, value: DataValue)
        ensures
            final(self).entries() == with_value(old(self).entries(), id, key@, value@),
    {
        let ghost vv = value@;
        let mut widget_data = match self.inner.remove(&id) {
            Some(m) => m,
            None => StringHashMap::new(),
        };
        widget_data.insert(String::from_str(key), value);
        let ghost wv = widget_data@;
        self.inner.insert(id, widget_data);
        proof {
            let expected = old(self).entries().insert(
                id,
                if old(self).entries().contains_key(id) {
                    old(self).entries()[id].insert(key@, vv)
                } else {
                    Map::empty().insert(key@, vv)
                },
            );
            assert(wv.map_values(|v: DataValue| v@) =~= if old(self).entries().contains_key(id) {
                old(self).entries()[id].insert(key@, vv)
            } else {
                Map::empty().insert(key@, vv)
            });
            assert(self.entries() =~= expected);
        }
    }

    /// The value of property `key` of widget `id`, if any.
    pub fn get(&self, id: WidgetId, key: &str) -> (r: Option<DataValue>)
        ensures
            match r {
                Some(v) => self.lookup(id, key@) == Some(v@),
                None => self.lookup(id, key@) is None,
            },
    {
        match self.inner.get(&id) {
            Some(widget_data) => match widget_data.get(key) {
                Some(v) => Some(v.duplicate()),
                None => None,
            },
            None => None,
        }
    }

    /// Removes property `key` of widget `id`; the widget reverts to its static value.
    pub fn clear(&mut self, id: WidgetId, key: &str)
        ensures
            final(self).entries() == without_value(old(self).entries(), id, key@),
    {
        match self.inner.remove(&id) {
            Some(widget_data) => {
                let mut widget_data = widget_data;
                widget_data.remove(key);
                let ghost wv = widget_data@;
                self.inner.insert(id, widget_data);
                proof {
                    assert(wv.map_values(|v: DataValue| v@) =~= old(self).entries()[id].remove(
                        key@,
                    ));
                    assert(self.entries() =~= old(self).entries().insert(
                        id,
                        old(self).entries()[id].remove(key@),
                    ));
                }
            },
            None => {
                proof {
                    assert(self.inner@ =~= old(self).inner@);
                }
            },
        }
    }

    /// Removes all data of widget `id`.
    pub fn clear_widget(&mut self, id: WidgetId)
        ensures
            final(self).entries() == old(self).entries().remove(id),
    {
        self.inner.remove(&id);
        proof {
            assert(self.entries() =~= old(self).entries().remove(id));
        }
    }

    /// The widget's `"visible"` flag; `true` when absent or not a `Visible` value.
    pub fn is_visible(&self, id: WidgetId) -> (r: bool)
        ensures
            r == match self.lookup(id, visible_key()) {
                Some(DataValueView::Visible(v)) => v,
                _ => true,
            },
    {
        match self.get(id, "visible") {
            Some(DataValue::Visible(v)) => v,
            _ => true,
        }
    }

    /// The widget's overridden label: the `"label"` value when it is `Text`.
    pub fn label(&self, id: WidgetId) -> (r: Option<String>)
        ensures
            match self.lookup(id, label_key()) {
                Some(DataValueView::Text(t)) => r matches Some(s) && s@ == t,
                _ => r is None,
            },
    {
        match self.get(id, "label") {
            Some(DataValue::Text(t)) => Some(t),
            _ => None,
        }
    }
}

/// After `set`, the property reads as the value set, and every other property
/// of every widget reads as before.
pub proof fn lookup_after_set(
    before: DataMap,
    after: DataMap,
    id: WidgetId,
    key: Seq<char>,
    value: DataValueView,
    other_id: WidgetId,
    other_key: Seq<char>,
)
    requires
        after.entries() == with_value(before.entries(), id, key, value),
    ensures
        after.lookup(id, key) == Some(value),
        other_id != id || other_key != key ==> after.lookup(other_id, other_key) == before.lookup(
            other_id,
            other_key,
        ),
{
}

/// After `clear`, the property reads as absent, and every other property of
/// every widget reads as before.
pub proof fn lookup_after_clear(
    before: DataMap,
    after: DataMap,
    id: WidgetId,
    key: Seq<char>,
    other_id: WidgetId,
    other_key: Seq<char>,
)
    requires
        after.entries() == without_value(before.entries(), id, key),
    ensures
        after.lookup(id, key) is None,
        other_id != id || other_key != key ==> after.lookup(other_id, other_key) == before.lookup(
            other_id,
            other_key,
        ),
{
}

/// After `clear_widget`, no property of the widget reads as set, and other
/// widgets read as before.
pub proof fn lookup_after_clear_widget(
    before: DataMap,
    after: DataMap,
    id: WidgetId,
    key: Seq<char>,
    other_id: WidgetId,
)
    requires
        after.entries() == before.entries().remove(id),
    ensures
        after.lookup(id, key) is None,
        other_id != id ==> after.lookup(other_id, key) == before.lookup(other_id, key),
{
}

/// A cleared (or never set) `"visible"` flag reads as visible.
pub proof fn visible_by_default(m: DataMap, id: WidgetId)
    requires
        m.lookup(id, visible_key()) is None,
    ensures
        (match m.lookup(id, visible_key()) {
            Some(DataValueView::Visible(v)) => v,
            _ => true,
        }),
{
}

} // verus!
